//! Requests as they arrive on the wire, and small helpers: host names, header
//! values, byte counts for display.

use crate::error::{ErrorView, ProxyError, ProxyResult};
use crate::headers::{put, HeaderList, Headers};
use crate::text::{
    char_is_alphanumeric, char_of_digit, chars_of, digit_char, digits_of, find_char, has_prefix,
    is_alphanumeric, lines, lowercase, number_text, position, push_wide_number, split,
    split_lines, split_on, split_words, starts_with, string_push, text_of, to_lower, trim, trimmed,
    views, words,
};
use vstd::prelude::*;
use vstd::slice::slice_subrange;
use vstd::string::{StringExecFns, StringSliceAdditionalSpecFns};
use vstd::utf8::{decode_utf8, encode_utf8, valid_utf8};

verus! {

/// A request: its method, its target, the protocol version without the
/// `HTTP/` in front, and its headers under lowercase names.
#[derive(Debug, Clone)]
pub struct HttpRequest {
    pub method: String,
    pub uri: String,
    pub version: String,
    pub headers: Headers,
}

/// `HttpRequest` with its strings as sequences of characters.
pub struct RequestView {
    pub method: Seq<char>,
    pub uri: Seq<char>,
    pub version: Seq<char>,
    pub headers: HeaderList,
}

impl View for HttpRequest {
    type V = RequestView;

    open spec fn view(&self) -> RequestView {
        RequestView {
            method: self.method@,
            uri: self.uri@,
            version: self.version@,
            headers: self.headers@,
        }
    }
}

/// The text that `String::from_utf8_lossy` makes of bytes: what they encode
/// in UTF-8, with U+FFFD in place of what is no valid encoding.
pub uninterp spec fn utf8_lossy(bytes: Seq<u8>) -> Seq<char>;

/// `String::from_utf8_lossy`: the result depends on the bytes alone, and is
/// the text they encode where they are valid UTF-8.
#[verifier::external_body]
fn lossy_text(data: &[u8]) -> (r: String)
    ensures
        r@ == utf8_lossy(data@),
        valid_utf8(data@) ==> r@ == decode_utf8(data@),
{
    String::from_utf8_lossy(data).into_owned()
}

/// The index of the first line that is empty, where `blank` holds, or of the
/// first that is not, where it does not; the number of lines where there is none.
pub open spec fn first_line(ls: Seq<Seq<char>>, blank: bool) -> int
    decreases ls.len(),
{
    if ls.len() == 0 {
        0
    } else if (ls[0].len() == 0) == blank {
        0
    } else {
        1 + first_line(ls.skip(1), blank)
    }
}

proof fn lemma_first_line_is(ls: Seq<Seq<char>>, blank: bool, i: int)
    requires
        0 <= i <= ls.len(),
        forall|j: int| 0 <= j < i ==> ((#[trigger] ls[j]).len() == 0) != blank,
        i < ls.len() ==> (ls[i].len() == 0) == blank,
    ensures
        first_line(ls, blank) == i,
    decreases ls.len(),
{
    if ls.len() > 0 && i > 0 {
        assert((ls[0].len() == 0) != blank);
        assert forall|j: int| 0 <= j < i - 1 implies ((#[trigger] ls.skip(1)[j]).len() == 0)
            != blank by {
            assert(ls.skip(1)[j] == ls[j + 1]);
        }
        lemma_first_line_is(ls.skip(1), blank, i - 1);
    }
}

/// The version that the third word of a request line gives: what follows
/// `HTTP/`, or `1.1` where the word does not begin so.
pub open spec fn version_of(word: Seq<char>) -> Seq<char> {
    if starts_with(word, "HTTP/"@) {
        word.skip("HTTP/"@.len() as int)
    } else {
        "1.1"@
    }
}

/// The header that a line holds: the name before its first colon, trimmed and
/// in lowercase, and the value after it, trimmed. A line without a colon holds none.
pub open spec fn header_of(line: Seq<char>) -> Option<(Seq<char>, Seq<char>)> {
    let i = position(line, ':');
    if 0 <= i < line.len() {
        Some((lowercase(trim(line.take(i))), trim(line.skip(i + 1))))
    } else {
        None
    }
}

/// The headers that lines hold, a later line for a name replacing an earlier one.
pub open spec fn headers_of(ls: Seq<Seq<char>>) -> HeaderList
    decreases ls.len(),
{
    if ls.len() == 0 {
        Seq::empty()
    } else {
        let before = headers_of(ls.drop_last());
        match header_of(ls.last()) {
            Some((name, value)) => put(before, name, value),
            None => before,
        }
    }
}

/// The request that a text holds. Its first line that is not empty is the
/// request line, of exactly three words; the lines after it, up to the first
/// empty one, are its headers.
pub open spec fn request_of(text: Seq<char>) -> Result<RequestView, Seq<char>> {
    let ls = lines(text);
    let k = first_line(ls, false);
    if 0 <= k < ls.len() {
        let parts = words(ls[k]);
        if parts.len() == 3 {
            let rest = ls.skip(k + 1);
            Ok(
                RequestView {
                    method: parts[0],
                    uri: parts[1],
                    version: version_of(parts[2]),
                    headers: headers_of(rest.take(first_line(rest, true))),
                },
            )
        } else {
            Err("Invalid request line format"@)
        }
    } else {
        Err("Empty request"@)
    }
}

/// Whether `r` is what parsing `text` gives: the request, or the error
/// `InvalidRequest` with the reason.
pub open spec fn parsed_from(r: ProxyResult<HttpRequest>, text: Seq<char>) -> bool {
    match r {
        Ok(request) => request_of(text) == Ok::<RequestView, Seq<char>>(request@),
        Err(e) => request_of(text) matches Err(reason) && e@ == ErrorView::InvalidRequest(reason),
    }
}

/// Parses the request that a text holds.
pub fn parse_request_text(text: &str) -> (r: ProxyResult<HttpRequest>)
    ensures
        parsed_from(r, text@),
{
    let chars = chars_of(text);
    let ls = split_lines(chars.as_slice());
    let ghost lv = views(ls@);
    let mut k: usize = 0;
    while k < ls.len() && ls[k].len() == 0
        invariant
            k <= ls.len(),
            lv == views(ls@),
            forall|j: int| 0 <= j < k ==> (#[trigger] lv[j]).len() == 0,
        decreases ls.len() - k,
    {
        assert(lv[k as int] == ls@[k as int]@);
        k += 1;
    }
    proof {
        if k < ls.len() {
            assert(lv[k as int] == ls@[k as int]@);
        }
        lemma_first_line_is(lv, false, k as int);
    }
    if k == ls.len() {
        return Err(ProxyError::InvalidRequest(String::from_str("Empty request")));
    }
    let parts = split_words(ls[k].as_slice());
    if parts.len() != 3 {
        return Err(ProxyError::InvalidRequest(String::from_str("Invalid request line format")));
    }
    let ghost pv = views(parts@);
    proof {
        assert(pv[0] == parts@[0]@ && pv[1] == parts@[1]@ && pv[2] == parts@[2]@);
    }
    let method = text_of(parts[0].as_slice());
    let uri = text_of(parts[1].as_slice());
    let prefix = chars_of("HTTP/");
    let third = parts[2].as_slice();
    let version = if has_prefix(third, prefix.as_slice()) {
        text_of(slice_subrange(third, prefix.len(), third.len()))
    } else {
        String::from_str("1.1")
    };
    proof {
        assert(third@.subrange(prefix.len() as int, third.len() as int) =~= third@.skip(
            prefix.len() as int,
        ));
    }
    let ghost rest = lv.skip(k + 1);
    let mut headers = Headers::new();
    let mut i: usize = k + 1;
    proof {
        assert(rest.take(0) =~= Seq::<Seq<char>>::empty());
    }
    while i < ls.len() && ls[i].len() != 0
        invariant
            k < i <= ls.len(),
            lv == views(ls@),
            rest == lv.skip(k + 1),
            forall|j: int| 0 <= j < i - k - 1 ==> (#[trigger] rest[j]).len() != 0,
            headers@ == headers_of(rest.take(i - k - 1)),
        decreases ls.len() - i,
    {
        let line = ls[i].as_slice();
        let ghost n = i - k - 1;
        proof {
            assert(rest[n] == line@);
            assert(rest.take(n + 1).drop_last() =~= rest.take(n));
            assert(rest.take(n + 1).last() == line@);
        }
        let colon = find_char(line, ':');
        if colon < line.len() {
            let name = to_lower(trimmed(slice_subrange(line, 0, colon)).as_slice());
            let value = trimmed(slice_subrange(line, colon + 1, line.len()));
            proof {
                assert(line@.subrange(0, colon as int) =~= line@.take(colon as int));
                assert(line@.subrange(colon + 1, line.len() as int) =~= line@.skip(colon + 1));
            }
            headers.insert(text_of(name.as_slice()), text_of(value.as_slice()));
        }
        i += 1;
    }
    proof {
        if i < ls.len() {
            assert(lv[i as int] == ls@[i as int]@);
            assert(rest[i - k - 1] == lv[i as int]);
        }
        lemma_first_line_is(rest, true, i - k - 1);
    }
    Ok(HttpRequest { method, uri, version, headers })
}

/// Parses the request that the bytes of a header block hold, read as UTF-8
/// with U+FFFD for what is no valid encoding.
pub fn parse_http_request(data: &[u8]) -> (r: ProxyResult<HttpRequest>)
    ensures
        parsed_from(r, utf8_lossy(data@)),
        valid_utf8(data@) ==> parsed_from(r, decode_utf8(data@)),
{
    let text = lossy_text(data);
    parse_request_text(text.as_str())
}

/// Whether a character may stand in a label of a host name.
pub open spec fn label_char(c: char) -> bool {
    is_alphanumeric(c) || c == '-'
}

/// Whether `p` is a label of a host name: 1 to 63 bytes of letters, digits and
/// hyphens, with no hyphen at either end.
pub open spec fn valid_label(p: Seq<char>) -> bool {
    &&& 1 <= encode_utf8(p).len() <= 63
    &&& forall|i: int| 0 <= i < p.len() ==> label_char(#[trigger] p[i])
    &&& p.len() > 0 ==> p[0] != '-' && p.last() != '-'
}

/// Whether `s` is a host name: 1 to 253 bytes in labels joined by dots.
pub open spec fn valid_hostname(s: Seq<char>) -> bool {
    &&& 1 <= encode_utf8(s).len() <= 253
    &&& forall|i: int|
        0 <= i < split_on(s, '.').len() ==> valid_label(#[trigger] split_on(s, '.')[i])
}

fn is_valid_label(p: &[char]) -> (r: bool)
    ensures
        r == valid_label(p@),
{
    let bytes = text_of(p).as_str().as_bytes().len();
    if bytes < 1 || bytes > 63 {
        return false;
    }
    if p.len() == 0 {
        return false;
    }
    let mut i: usize = 0;
    while i < p.len()
        invariant
            i <= p.len(),
            forall|j: int| 0 <= j < i ==> label_char(#[trigger] p@[j]),
        decreases p.len() - i,
    {
        if !(char_is_alphanumeric(p[i]) || p[i] == '-') {
            return false;
        }
        i += 1;
    }
    p[0] != '-' && p[p.len() - 1] != '-'
}

/// Whether a text is a host name: labels of letters, digits and hyphens,
/// joined by dots, within the limits on their lengths.
pub fn is_valid_hostname(hostname: &str) -> (r: bool)
    ensures
        r == valid_hostname(hostname@),
{
    let bytes = hostname.as_bytes().len();
    if bytes < 1 || bytes > 253 {
        return false;
    }
    let chars = chars_of(hostname);
    let parts = split(chars.as_slice(), '.');
    let ghost pv = views(parts@);
    let mut i: usize = 0;
    while i < parts.len()
        invariant
            i <= parts.len(),
            pv == views(parts@),
            pv == split_on(hostname@, '.'),
            forall|j: int| 0 <= j < i ==> valid_label(#[trigger] pv[j]),
        decreases parts.len() - i,
    {
        assert(pv[i as int] == parts@[i as int]@);
        if !is_valid_label(parts[i].as_slice()) {
            return false;
        }
        i += 1;
    }
    true
}

/// Whether a character is a visible ASCII character or a space.
pub open spec fn is_plain(c: char) -> bool {
    ' ' <= c <= '~'
}

/// The characters of `s` that are plain, in order.
pub open spec fn plain_only(s: Seq<char>) -> Seq<char>
    decreases s.len(),
{
    if s.len() == 0 {
        Seq::empty()
    } else if is_plain(s.last()) {
        plain_only(s.drop_last()).push(s.last())
    } else {
        plain_only(s.drop_last())
    }
}

/// A header value without the characters that are not ASCII or are control
/// characters.
pub fn sanitize_header_value(value: &str) -> (r: String)
    ensures
        r@ == plain_only(value@),
{
    let chars = chars_of(value);
    let mut r = String::new();
    let mut i: usize = 0;
    while i < chars.len()
        invariant
            i <= chars.len(),
            r@ == plain_only(chars@.take(i as int)),
        decreases chars.len() - i,
    {
        assert(chars@.take(i + 1).drop_last() =~= chars@.take(i as int));
        let c = chars[i];
        if c >= ' ' && c <= '~' {
            string_push(&mut r, c);
        }
        i += 1;
    }
    assert(chars@.take(chars.len() as int) =~= chars@);
    r
}

/// 1024 to the power `k`, for `k` up to 5.
pub open spec fn unit_size(k: nat) -> nat {
    if k == 0 {
        1
    } else if k == 1 {
        0x400
    } else if k == 2 {
        0x10_0000
    } else if k == 3 {
        0x4000_0000
    } else if k == 4 {
        0x100_0000_0000
    } else {
        0x4_0000_0000_0000
    }
}

/// The name of the unit of 1024 to the power `k` bytes.
pub open spec fn unit_name(k: nat) -> Seq<char> {
    if k == 0 {
        "B"@
    } else if k == 1 {
        "KB"@
    } else if k == 2 {
        "MB"@
    } else if k == 3 {
        "GB"@
    } else if k == 4 {
        "TB"@
    } else {
        "PB"@
    }
}

/// The largest unit, up to `top`, that `n` bytes fill at least once.
pub open spec fn unit_of(n: nat, top: nat) -> nat
    decreases top,
{
    if top == 0 || n >= unit_size(top) {
        top
    } else {
        unit_of(n, (top - 1) as nat)
    }
}

/// `num / den` rounded to the nearest integer, a tie going to the even one.
pub open spec fn round_half_even(num: nat, den: nat) -> nat {
    let q = num / den;
    let r = num % den;
    if 2 * r > den || (2 * r == den && q % 2 == 1) {
        q + 1
    } else {
        q
    }
}

/// The distance between neighbouring numbers that have 53 significant bits, at `n`.
pub open spec fn spacing_at(n: nat) -> nat {
    if n < 0x20_0000_0000_0000 {
        1
    } else if n < 0x40_0000_0000_0000 {
        2
    } else if n < 0x80_0000_0000_0000 {
        4
    } else if n < 0x100_0000_0000_0000 {
        8
    } else if n < 0x200_0000_0000_0000 {
        16
    } else if n < 0x400_0000_0000_0000 {
        32
    } else if n < 0x800_0000_0000_0000 {
        64
    } else if n < 0x1000_0000_0000_0000 {
        128
    } else if n < 0x2000_0000_0000_0000 {
        256
    } else if n < 0x4000_0000_0000_0000 {
        512
    } else if n < 0x8000_0000_0000_0000 {
        1024
    } else {
        2048
    }
}

/// `n` as a number of 53 significant bits: the nearest one, a tie going to the
/// one whose last bit is zero.
pub open spec fn in_53_bits(n: nat) -> nat {
    round_half_even(n, spacing_at(n)) * spacing_at(n)
}

/// A digit pair for a number under 100.
pub open spec fn two_digits(n: nat) -> Seq<char> {
    seq![digit_char(n / 10), digit_char(n % 10)]
}

/// A byte count for display. Under 1024 it is the count and `B`. From 1024
/// on it is the count, taken to 53 significant bits, in the largest unit up
/// to `top` that it fills, rounded to hundredths, and the unit's name.
pub open spec fn scaled_text(n: nat, top: nat) -> Seq<char> {
    let k = unit_of(n, top);
    if k == 0 {
        digits_of(n) + " B"@
    } else {
        let h = round_half_even(in_53_bits(n) * 100, unit_size(k));
        digits_of(h / 100) + "."@ + two_digits(h % 100) + " "@ + unit_name(k)
    }
}

fn rounded(num: u128, den: u128) -> (r: u128)
    requires
        0 < den <= 0x4_0000_0000_0000,
        num < 0x1_0000_0000_0000_0000_0000,
    ensures
        r == round_half_even(num as nat, den as nat),
        r <= num + 1,
        r * den <= num + den,
{
    let q = num / den;
    let r = num % den;
    assert(q <= num && q * den <= num) by (nonlinear_arith)
        requires
            q == num / den,
            den > 0,
    ;
    if 2 * r > den || (2 * r == den && q % 2 == 1) {
        assert((q + 1) * den == q * den + den) by (nonlinear_arith);
        q + 1
    } else {
        q
    }
}

fn spacing(n: u64) -> (r: u64)
    ensures
        r == spacing_at(n as nat),
        0 < r <= 2048,
{
    if n < 0x20_0000_0000_0000 {
        1
    } else if n < 0x40_0000_0000_0000 {
        2
    } else if n < 0x80_0000_0000_0000 {
        4
    } else if n < 0x100_0000_0000_0000 {
        8
    } else if n < 0x200_0000_0000_0000 {
        16
    } else if n < 0x400_0000_0000_0000 {
        32
    } else if n < 0x800_0000_0000_0000 {
        64
    } else if n < 0x1000_0000_0000_0000 {
        128
    } else if n < 0x2000_0000_0000_0000 {
        256
    } else if n < 0x4000_0000_0000_0000 {
        512
    } else if n < 0x8000_0000_0000_0000 {
        1024
    } else {
        2048
    }
}

fn size_of_unit(k: usize) -> (r: u64)
    requires
        k <= 5,
    ensures
        r == unit_size(k as nat),
        r > 0,
{
    if k == 0 {
        1
    } else if k == 1 {
        0x400
    } else if k == 2 {
        0x10_0000
    } else if k == 3 {
        0x4000_0000
    } else if k == 4 {
        0x100_0000_0000
    } else {
        0x4_0000_0000_0000
    }
}

fn name_of_unit(k: usize) -> (r: &'static str)
    ensures
        r@ == unit_name(k as nat),
{
    if k == 0 {
        "B"
    } else if k == 1 {
        "KB"
    } else if k == 2 {
        "MB"
    } else if k == 3 {
        "GB"
    } else if k == 4 {
        "TB"
    } else {
        "PB"
    }
}

/// A byte count for display, in units up to the one of index `top`.
pub fn format_scaled(bytes: u64, top: usize) -> (r: String)
    requires
        top <= 5,
    ensures
        r@ == scaled_text(bytes as nat, top as nat),
{
    let mut k: usize = top;
    while k > 0 && bytes < size_of_unit(k)
        invariant
            k <= top <= 5,
            unit_of(bytes as nat, top as nat) == unit_of(bytes as nat, k as nat),
        decreases k,
    {
        k -= 1;
    }
    if k == 0 {
        let mut r = number_text(bytes);
        r.append(" B");
        return r;
    }
    let step = spacing(bytes) as u128;
    let wide = rounded(bytes as u128, step) * step;
    let h = rounded(wide * 100, size_of_unit(k) as u128);
    let mut r = String::new();
    push_wide_number(&mut r, h / 100);
    r.append(".");
    let cents = h % 100;
    string_push(&mut r, char_of_digit(cents / 10));
    string_push(&mut r, char_of_digit(cents % 10));
    r.append(" ");
    r.append(name_of_unit(k));
    proof {
        let n = bytes as nat;
        let hn = round_half_even(in_53_bits(n) * 100, unit_size(k as nat));
        assert(hn == h);
        assert(r@ =~= digits_of(hn / 100) + "."@ + two_digits(hn % 100) + " "@ + unit_name(
            k as nat,
        )) by {
            reveal_strlit(".");
            reveal_strlit(" ");
        }
    }
    r
}

/// A byte count for display, in units up to TB.
pub fn format_bytes(bytes: u64) -> (r: String)
    ensures
        r@ == scaled_text(bytes as nat, 4),
{
    format_scaled(bytes, 4)
}

} // verus!
