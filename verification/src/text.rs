//! Character sequences: the searches, splits and trims that the parsers of this
//! crate are stated over, each with an executable counterpart on `&[char]`.

use vstd::prelude::*;
use vstd::slice::slice_subrange;
use vstd::string::StringSliceAdditionalSpecFns;
use vstd::utf8::encode_utf8_decode_utf8;

verus! {

/// Whether `c` has the Unicode property White_Space: the controls from tab
/// to carriage return, the space, next line, the no-break space, the Ogham
/// space mark, the spaces from en quad to hair space, the line and the
/// paragraph separator, the narrow no-break space, the medium mathematical
/// space and the ideographic space.
pub open spec fn is_whitespace(c: char) -> bool {
    ||| '\u{9}' <= c <= '\u{d}'
    ||| c == ' '
    ||| c == '\u{85}'
    ||| c == '\u{a0}'
    ||| c == '\u{1680}'
    ||| '\u{2000}' <= c <= '\u{200a}'
    ||| c == '\u{2028}'
    ||| c == '\u{2029}'
    ||| c == '\u{202f}'
    ||| c == '\u{205f}'
    ||| c == '\u{3000}'
}

/// Whether `c` is alphabetic or numeric in Unicode's terms, as `char::is_alphanumeric` reports it.
pub uninterp spec fn is_alphanumeric(c: char) -> bool;

/// The lowercase form of a text that is not all ASCII, as `str::to_lowercase`
/// returns it.
pub uninterp spec fn unicode_lowercase(s: Seq<char>) -> Seq<char>;

/// Whether every character of a text is an ASCII character.
pub open spec fn is_ascii_text(s: Seq<char>) -> bool {
    forall|i: int| 0 <= i < s.len() ==> (#[trigger] s[i]) <= '\u{7f}'
}

/// The lowercase form of an ASCII character: the small letter for a capital
/// letter, and the character itself for any other.
pub open spec fn ascii_lower(c: char) -> char {
    if 'A' <= c <= 'Z' {
        ((c as u8) + 32) as char
    } else {
        c
    }
}

/// The lowercase form of a text. In an ASCII text each capital letter gives
/// way to its small letter and nothing else changes.
pub open spec fn lowercase(s: Seq<char>) -> Seq<char> {
    if is_ascii_text(s) {
        Seq::new(s.len(), |i: int| ascii_lower(s[i]))
    } else {
        unicode_lowercase(s)
    }
}

/// An ASCII text without capital letters is its own lowercase form.
pub proof fn lemma_lowercase_keeps(s: Seq<char>)
    requires
        forall|i: int|
            0 <= i < s.len() ==> (#[trigger] s[i]) <= '\u{7f}' && !('A' <= s[i] <= 'Z'),
    ensures
        lowercase(s) == s,
{
    assert(is_ascii_text(s));
    assert(Seq::new(s.len(), |i: int| ascii_lower(s[i])) =~= s);
}

/// `char::is_whitespace`: the result is the character's White_Space property,
/// which `is_whitespace` spells out.
#[verifier::external_body]
pub(crate) fn char_is_whitespace(c: char) -> (r: bool)
    ensures
        r == is_whitespace(c),
{
    c.is_whitespace()
}

/// `char::is_alphanumeric`: the result is named `is_alphanumeric`.
#[verifier::external_body]
pub(crate) fn char_is_alphanumeric(c: char) -> (r: bool)
    ensures
        r == is_alphanumeric(c),
{
    c.is_alphanumeric()
}

/// `str::to_lowercase`: the result is a function of the text alone. Of an
/// ASCII text it is the text with small letters for its capital letters; of
/// any other text it is named `unicode_lowercase`.
#[verifier::external_body]
pub(crate) fn str_to_lowercase(s: &str) -> (r: String)
    ensures
        r@ == lowercase(s@),
        !is_ascii_text(s@) ==> r@ == unicode_lowercase(s@),
{
    s.to_lowercase()
}

/// `String::push`: appends one character.
#[verifier::external_body]
pub(crate) fn string_push(s: &mut String, c: char)
    ensures
        final(s)@ == old(s)@.push(c),
{
    s.push(c)
}

/// The characters of a string, in order.
pub fn chars_of(s: &str) -> (v: Vec<char>)
    ensures
        v@ == s@,
{
    let mut v: Vec<char> = Vec::new();
    for c in it: s.chars()
        invariant
            v@ == it.seq().take(it.index() as int),
            it.seq() == s@,
    {
        v.push(c);
    }
    v
}

/// The string made of the given characters.
pub fn text_of(v: &[char]) -> (s: String)
    ensures
        s@ == v@,
{
    let mut s = String::new();
    let mut i: usize = 0;
    while i < v.len()
        invariant
            i <= v.len(),
            s@ == v@.take(i as int),
        decreases v.len() - i,
    {
        string_push(&mut s, v[i]);
        i += 1;
    }
    s
}

/// The lowercase form of a text.
pub fn to_lower(v: &[char]) -> (r: Vec<char>)
    ensures
        r@ == lowercase(v@),
{
    let s = text_of(v);
    let low = str_to_lowercase(s.as_str());
    chars_of(low.as_str())
}

/// A copy of the characters from `from` up to, not including, `to`.
pub fn copy_range(s: &[char], from: usize, to: usize) -> (r: Vec<char>)
    requires
        from <= to <= s.len(),
    ensures
        r@ == s@.subrange(from as int, to as int),
{
    let mut r: Vec<char> = Vec::new();
    let mut i: usize = from;
    while i < to
        invariant
            from <= i <= to <= s.len(),
            r@ == s@.subrange(from as int, i as int),
        decreases to - i,
    {
        r.push(s[i]);
        i += 1;
    }
    r
}

/// Whether two texts are the same.
pub fn same_text(a: &[char], b: &[char]) -> (r: bool)
    ensures
        r == (a@ == b@),
{
    if a.len() != b.len() {
        return false;
    }
    let mut i: usize = 0;
    while i < a.len()
        invariant
            i <= a.len(),
            a.len() == b.len(),
            a@.take(i as int) == b@.take(i as int),
        decreases a.len() - i,
    {
        if a[i] != b[i] {
            return false;
        }
        assert(a@.take(i + 1) =~= a@.take(i as int).push(a@[i as int]));
        assert(b@.take(i + 1) =~= b@.take(i as int).push(b@[i as int]));
        i += 1;
    }
    assert(a@ =~= a@.take(a.len() as int));
    assert(b@ =~= b@.take(b.len() as int));
    true
}

/// Whether a text is the given literal.
pub fn is_word(a: &[char], word: &str) -> (r: bool)
    ensures
        r == (a@ == word@),
{
    let w = chars_of(word);
    same_text(a, w.as_slice())
}

/// Whether two strings are the same.
pub fn str_eq(a: &str, b: &str) -> (r: bool)
    ensures
        r == (a@ == b@),
{
    let x = a.as_bytes();
    let y = b.as_bytes();
    proof {
        encode_utf8_decode_utf8(a@);
        encode_utf8_decode_utf8(b@);
    }
    if x.len() != y.len() {
        return false;
    }
    let mut i: usize = 0;
    while i < x.len()
        invariant
            i <= x.len(),
            x.len() == y.len(),
            x@ == a.spec_bytes(),
            y@ == b.spec_bytes(),
            forall|j: int| 0 <= j < i ==> x@[j] == y@[j],
        decreases x.len() - i,
    {
        if x[i] != y[i] {
            return false;
        }
        i += 1;
    }
    assert(x@ =~= y@);
    true
}

/// The character that stands for a digit.
pub open spec fn digit_char(d: nat) -> char {
    if d == 0 {
        '0'
    } else if d == 1 {
        '1'
    } else if d == 2 {
        '2'
    } else if d == 3 {
        '3'
    } else if d == 4 {
        '4'
    } else if d == 5 {
        '5'
    } else if d == 6 {
        '6'
    } else if d == 7 {
        '7'
    } else if d == 8 {
        '8'
    } else {
        '9'
    }
}

/// A number in decimal digits, without leading zeros.
pub open spec fn digits_of(n: nat) -> Seq<char>
    decreases n,
{
    if n < 10 {
        seq![digit_char(n)]
    } else {
        digits_of(n / 10).push(digit_char(n % 10))
    }
}

pub(crate) fn char_of_digit(d: u128) -> (c: char)
    requires
        d < 10,
    ensures
        c == digit_char(d as nat),
{
    if d == 0 {
        '0'
    } else if d == 1 {
        '1'
    } else if d == 2 {
        '2'
    } else if d == 3 {
        '3'
    } else if d == 4 {
        '4'
    } else if d == 5 {
        '5'
    } else if d == 6 {
        '6'
    } else if d == 7 {
        '7'
    } else if d == 8 {
        '8'
    } else {
        '9'
    }
}

/// Appends a number in decimal digits.
pub fn push_number(out: &mut String, n: u64)
    ensures
        final(out)@ == old(out)@ + digits_of(n as nat),
{
    push_wide_number(out, n as u128)
}

/// Appends a number in decimal digits.
pub fn push_wide_number(out: &mut String, n: u128)
    ensures
        final(out)@ == old(out)@ + digits_of(n as nat),
    decreases n,
{
    if n >= 10 {
        push_wide_number(out, n / 10);
    }
    string_push(out, char_of_digit(n % 10));
    proof {
        if n >= 10 {
            assert(final(out)@ =~= old(out)@ + digits_of(n as nat));
        } else {
            assert(final(out)@ =~= old(out)@ + digits_of(n as nat));
        }
    }
}

/// A number in decimal digits.
pub fn number_text(n: u64) -> (r: String)
    ensures
        r@ == digits_of(n as nat),
{
    let mut r = String::new();
    push_number(&mut r, n);
    assert(r@ =~= digits_of(n as nat));
    r
}

/// The index of the first `c` in `s`, or the length of `s` where it has none.
pub open spec fn position(s: Seq<char>, c: char) -> int
    decreases s.len(),
{
    if s.len() == 0 {
        0
    } else if s[0] == c {
        0
    } else {
        1 + position(s.skip(1), c)
    }
}

/// `position` is the one index before which no `c` stands and at which one does.
pub proof fn lemma_position_is(s: Seq<char>, c: char, i: int)
    requires
        0 <= i <= s.len(),
        forall|j: int| 0 <= j < i ==> s[j] != c,
        i < s.len() ==> s[i] == c,
    ensures
        position(s, c) == i,
    decreases s.len(),
{
    if s.len() > 0 && i > 0 {
        assert(s[0] != c);
        assert forall|j: int| 0 <= j < i - 1 implies s.skip(1)[j] != c by {
            assert(s.skip(1)[j] == s[j + 1]);
        }
        lemma_position_is(s.skip(1), c, i - 1);
    }
}

/// The index of the first `c`, or the length of the text.
pub fn find_char(s: &[char], c: char) -> (i: usize)
    ensures
        i == position(s@, c),
        i <= s.len(),
{
    let mut i: usize = 0;
    while i < s.len() && s[i] != c
        invariant
            i <= s.len(),
            forall|j: int| 0 <= j < i ==> s@[j] != c,
        decreases s.len() - i,
    {
        i += 1;
    }
    proof {
        lemma_position_is(s@, c, i as int);
    }
    i
}

/// The index of the last `c` in `s`, or -1 where it has none.
pub open spec fn last_position(s: Seq<char>, c: char) -> int
    decreases s.len(),
{
    if s.len() == 0 {
        -1
    } else if s.last() == c {
        s.len() - 1
    } else {
        last_position(s.drop_last(), c)
    }
}

/// `last_position` lies within the text or just before it; the character
/// there is `c`, and none after it is.
pub proof fn lemma_last_position(s: Seq<char>, c: char)
    ensures
        -1 <= last_position(s, c) < s.len(),
        last_position(s, c) >= 0 ==> s[last_position(s, c)] == c,
        forall|j: int| last_position(s, c) < j < s.len() ==> s[j] != c,
    decreases s.len(),
{
    if s.len() > 0 && s.last() != c {
        lemma_last_position(s.drop_last(), c);
        assert forall|j: int| last_position(s, c) < j < s.len() implies s[j] != c by {
            if j < s.len() - 1 {
                assert(s.drop_last()[j] == s[j]);
            }
        }
    }
}

/// The index of the last `c`, if there is one.
pub fn find_last_char(s: &[char], c: char) -> (r: Option<usize>)
    ensures
        match r {
            Some(i) => i == last_position(s@, c),
            None => last_position(s@, c) == -1,
        },
{
    let mut i: usize = s.len();
    assert(s@.take(i as int) =~= s@);
    while i > 0 && s[i - 1] != c
        invariant
            i <= s.len(),
            last_position(s@, c) == last_position(s@.take(i as int), c),
        decreases i,
    {
        assert(s@.take(i as int).drop_last() =~= s@.take(i - 1));
        i -= 1;
    }
    if i == 0 {
        None
    } else {
        Some(i - 1)
    }
}

/// The length of the run of whitespace that `s` begins with.
pub open spec fn space_run(s: Seq<char>) -> int
    decreases s.len(),
{
    if s.len() > 0 && is_whitespace(s[0]) {
        1 + space_run(s.skip(1))
    } else {
        0
    }
}

/// The length of the run of characters other than whitespace that `s` begins with.
pub open spec fn word_run(s: Seq<char>) -> int
    decreases s.len(),
{
    if s.len() > 0 && !is_whitespace(s[0]) {
        1 + word_run(s.skip(1))
    } else {
        0
    }
}

/// A run of whitespace is whitespace throughout and ends before a character
/// that is none.
pub proof fn lemma_space_run(s: Seq<char>)
    ensures
        0 <= space_run(s) <= s.len(),
        space_run(s) < s.len() ==> !is_whitespace(s[space_run(s)]),
        forall|j: int| 0 <= j < space_run(s) ==> is_whitespace(s[j]),
    decreases s.len(),
{
    if s.len() > 0 && is_whitespace(s[0]) {
        lemma_space_run(s.skip(1));
        assert forall|j: int| 0 <= j < space_run(s) implies is_whitespace(s[j]) by {
            if j > 0 {
                assert(s.skip(1)[j - 1] == s[j]);
            }
        }
    }
}

/// `space_run` is the one length that whitespace fills and after which a
/// character that is none stands, or the end.
pub proof fn lemma_space_run_is(s: Seq<char>, i: int)
    requires
        0 <= i <= s.len(),
        forall|j: int| 0 <= j < i ==> is_whitespace(s[j]),
        i < s.len() ==> !is_whitespace(s[i]),
    ensures
        space_run(s) == i,
    decreases s.len(),
{
    if s.len() > 0 && i > 0 {
        assert(is_whitespace(s[0]));
        assert forall|j: int| 0 <= j < i - 1 implies is_whitespace(s.skip(1)[j]) by {
            assert(s.skip(1)[j] == s[j + 1]);
        }
        lemma_space_run_is(s.skip(1), i - 1);
    }
}

/// A run of other characters holds no whitespace and ends before
/// whitespace; it is not empty where the text begins with such a character.
pub proof fn lemma_word_run(s: Seq<char>)
    ensures
        0 <= word_run(s) <= s.len(),
        word_run(s) < s.len() ==> is_whitespace(s[word_run(s)]),
        forall|j: int| 0 <= j < word_run(s) ==> !is_whitespace(s[j]),
        s.len() > 0 && !is_whitespace(s[0]) ==> word_run(s) >= 1,
    decreases s.len(),
{
    if s.len() > 0 && !is_whitespace(s[0]) {
        lemma_word_run(s.skip(1));
        assert forall|j: int| 0 <= j < word_run(s) implies !is_whitespace(s[j]) by {
            if j > 0 {
                assert(s.skip(1)[j - 1] == s[j]);
            }
        }
    }
}

/// `word_run` is the one length that other characters fill and after which
/// whitespace stands, or the end.
pub proof fn lemma_word_run_is(s: Seq<char>, i: int)
    requires
        0 <= i <= s.len(),
        forall|j: int| 0 <= j < i ==> !is_whitespace(s[j]),
        i < s.len() ==> is_whitespace(s[i]),
    ensures
        word_run(s) == i,
    decreases s.len(),
{
    if s.len() > 0 && i > 0 {
        assert(!is_whitespace(s[0]));
        assert forall|j: int| 0 <= j < i - 1 implies !is_whitespace(s.skip(1)[j]) by {
            assert(s.skip(1)[j] == s[j + 1]);
        }
        lemma_word_run_is(s.skip(1), i - 1);
    }
}

/// The index from `from` on at which the run of whitespace that starts there ends.
pub fn skip_spaces(s: &[char], from: usize) -> (i: usize)
    requires
        from <= s.len(),
    ensures
        from <= i <= s.len(),
        i == from + space_run(s@.skip(from as int)),
{
    let mut i: usize = from;
    while i < s.len() && char_is_whitespace(s[i])
        invariant
            from <= i <= s.len(),
            forall|j: int| from <= j < i ==> is_whitespace(s@[j]),
        decreases s.len() - i,
    {
        i += 1;
    }
    proof {
        lemma_space_run_is(s@.skip(from as int), i - from);
    }
    i
}

/// The index from `from` on at which the run of other characters that starts there ends.
pub fn skip_word(s: &[char], from: usize) -> (i: usize)
    requires
        from <= s.len(),
    ensures
        from <= i <= s.len(),
        i == from + word_run(s@.skip(from as int)),
{
    let mut i: usize = from;
    while i < s.len() && !char_is_whitespace(s[i])
        invariant
            from <= i <= s.len(),
            forall|j: int| from <= j < i ==> !is_whitespace(s@[j]),
        decreases s.len() - i,
    {
        i += 1;
    }
    proof {
        lemma_word_run_is(s@.skip(from as int), i - from);
    }
    i
}

/// `s` without the whitespace it begins with.
pub open spec fn trim_start(s: Seq<char>) -> Seq<char> {
    s.skip(space_run(s))
}

/// `s` without the whitespace it ends with.
pub open spec fn trim_end(s: Seq<char>) -> Seq<char>
    decreases s.len(),
{
    if s.len() > 0 && is_whitespace(s.last()) {
        trim_end(s.drop_last())
    } else {
        s
    }
}

/// `s` without the whitespace at either end.
pub open spec fn trim(s: Seq<char>) -> Seq<char> {
    trim_end(trim_start(s))
}

/// A text without the whitespace at either end.
pub fn trimmed(s: &[char]) -> (r: Vec<char>)
    ensures
        r@ == trim(s@),
{
    let start = skip_spaces(s, 0);
    proof {
        assert(s@.skip(0) =~= s@);
        lemma_space_run(s@);
    }
    let mut end: usize = s.len();
    while end > start && char_is_whitespace(s[end - 1])
        invariant
            start <= end <= s.len(),
            trim_end(s@.skip(start as int)) == trim_end(s@.subrange(start as int, end as int)),
        decreases end,
    {
        assert(s@.subrange(start as int, end as int).drop_last() =~= s@.subrange(
            start as int,
            end - 1,
        ));
        end -= 1;
    }
    proof {
        assert(s@.skip(start as int) =~= s@.subrange(start as int, s.len() as int));
    }
    copy_range(s, start, end)
}

/// A text that neither begins nor ends with whitespace is its own trimmed form.
pub proof fn lemma_trim_keeps(s: Seq<char>)
    requires
        s.len() > 0,
        !is_whitespace(s[0]),
        !is_whitespace(s.last()),
    ensures
        trim(s) == s,
{
    lemma_space_run_is(s, 0);
    assert(s.skip(0) =~= s);
}

/// The views of the texts of a list.
pub open spec fn views(v: Seq<Vec<char>>) -> Seq<Seq<char>> {
    Seq::new(v.len(), |i: int| v[i]@)
}

/// The pieces of `s` that stand between the occurrences of `c`; one more than
/// there are occurrences.
pub open spec fn split_on(s: Seq<char>, c: char) -> Seq<Seq<char>>
    decreases s.len(),
{
    let i = position(s, c);
    if 0 <= i < s.len() {
        seq![s.take(i)] + split_on(s.skip(i + 1), c)
    } else {
        seq![s]
    }
}

/// The pieces of a text between the occurrences of `c`.
pub fn split(s: &[char], c: char) -> (parts: Vec<Vec<char>>)
    ensures
        views(parts@) == split_on(s@, c),
{
    let mut parts: Vec<Vec<char>> = Vec::new();
    let mut start: usize = 0;
    let mut done = false;
    proof {
        assert(s@.skip(0) =~= s@);
        assert(views(parts@) + split_on(s@, c) =~= split_on(s@, c));
    }
    while !done
        invariant
            start <= s.len(),
            !done ==> split_on(s@, c) == views(parts@) + split_on(s@.skip(start as int), c),
            done ==> split_on(s@, c) == views(parts@),
        decreases s.len() - start + (if done { 0int } else { 1int }),
    {
        let rest = slice_subrange(s, start, s.len());
        let i = find_char(rest, c);
        let ghost before = parts@;
        proof {
            assert(rest@ =~= s@.skip(start as int));
        }
        if i < rest.len() {
            parts.push(copy_range(rest, 0, i));
            proof {
                assert(rest@.subrange(0, i as int) =~= rest@.take(i as int));
                assert(rest@.skip(i + 1) =~= s@.skip(start + i + 1));
                assert(views(parts@) =~= views(before).push(rest@.take(i as int)));
                assert(views(before) + (seq![rest@.take(i as int)] + split_on(
                    rest@.skip(i + 1),
                    c,
                )) =~= views(parts@) + split_on(s@.skip(start + i + 1), c));
            }
            start = start + i + 1;
        } else {
            parts.push(copy_range(rest, 0, rest.len()));
            proof {
                assert(rest@.subrange(0, rest.len() as int) =~= rest@);
                assert(views(parts@) =~= views(before).push(rest@));
                assert(views(before) + seq![rest@] =~= views(parts@));
            }
            done = true;
        }
    }
    parts
}

/// What stands before the first `c` is the first piece, and the pieces of
/// what follows it are the others.
pub proof fn lemma_split_head(head: Seq<char>, c: char, rest: Seq<char>)
    requires
        forall|j: int| 0 <= j < head.len() ==> head[j] != c,
    ensures
        split_on(head + seq![c] + rest, c) == seq![head] + split_on(rest, c),
{
    let s = head + seq![c] + rest;
    assert forall|j: int| 0 <= j < head.len() implies s[j] != c by {
        assert(s[j] == head[j]);
    }
    assert(s[head.len() as int] == c);
    lemma_position_is(s, c, head.len() as int);
    assert(s.take(head.len() as int) =~= head);
    assert(s.skip(head.len() as int + 1) =~= rest);
}

/// A text without `c` is its one piece.
pub proof fn lemma_split_whole(s: Seq<char>, c: char)
    requires
        forall|j: int| 0 <= j < s.len() ==> s[j] != c,
    ensures
        split_on(s, c) == seq![s],
{
    lemma_position_is(s, c, s.len() as int);
}

/// `s` without the carriage return it ends with, if it ends with one.
pub open spec fn strip_cr(s: Seq<char>) -> Seq<char> {
    if s.len() > 0 && s.last() == '\r' {
        s.drop_last()
    } else {
        s
    }
}

/// The lines of a text. A line ends at a line feed, or at a carriage return
/// and a line feed, neither of which belongs to it; what follows the last
/// line feed is a line unless it is empty.
pub open spec fn lines(s: Seq<char>) -> Seq<Seq<char>>
    decreases s.len(),
{
    if s.len() == 0 {
        seq![]
    } else {
        let i = position(s, '\n');
        if 0 <= i < s.len() {
            seq![strip_cr(s.take(i))] + lines(s.skip(i + 1))
        } else {
            seq![s]
        }
    }
}

/// The lines of a text.
pub fn split_lines(s: &[char]) -> (parts: Vec<Vec<char>>)
    ensures
        views(parts@) == lines(s@),
{
    let mut parts: Vec<Vec<char>> = Vec::new();
    let mut start: usize = 0;
    proof {
        assert(s@.skip(0) =~= s@);
        assert(views(parts@) + lines(s@) =~= lines(s@));
    }
    while start < s.len()
        invariant
            start <= s.len(),
            lines(s@) == views(parts@) + lines(s@.skip(start as int)),
        decreases s.len() - start,
    {
        let rest = slice_subrange(s, start, s.len());
        let i = find_char(rest, '\n');
        let ghost before = parts@;
        proof {
            assert(rest@ =~= s@.skip(start as int));
        }
        if i < rest.len() {
            let end: usize = if i > 0 && rest[i - 1] == '\r' {
                i - 1
            } else {
                i
            };
            parts.push(copy_range(rest, 0, end));
            proof {
                let line = strip_cr(rest@.take(i as int));
                assert(rest@.subrange(0, end as int) =~= line);
                assert(rest@.skip(i + 1) =~= s@.skip(start + i + 1));
                assert(views(parts@) =~= views(before).push(line));
                assert(views(before) + (seq![line] + lines(rest@.skip(i + 1))) =~= views(parts@)
                    + lines(s@.skip(start + i + 1)));
            }
            start = start + i + 1;
        } else {
            parts.push(copy_range(rest, 0, rest.len()));
            proof {
                assert(rest@.subrange(0, rest.len() as int) =~= rest@);
                assert(views(parts@) =~= views(before).push(rest@));
                assert(s@.skip(s.len() as int) =~= Seq::<char>::empty());
                assert(views(before) + seq![rest@] =~= views(parts@) + lines(
                    s@.skip(s.len() as int),
                ));
            }
            start = s.len();
        }
    }
    proof {
        assert(s@.skip(start as int) =~= Seq::<char>::empty());
        assert(views(parts@) + lines(s@.skip(start as int)) =~= views(parts@));
    }
    parts
}

/// The words of a text: its maximal runs of characters other than whitespace.
pub open spec fn words(s: Seq<char>) -> Seq<Seq<char>>
    decreases s.len(),
{
    if s.len() == 0 {
        seq![]
    } else if is_whitespace(s[0]) {
        words(s.skip(1))
    } else {
        let n = word_run(s);
        proof {
            lemma_word_run(s);
        }
        seq![s.take(n)] + words(s.skip(n))
    }
}

/// Whitespace before the first word changes nothing.
pub proof fn lemma_words_skip_spaces(s: Seq<char>)
    ensures
        words(s) == words(s.skip(space_run(s))),
    decreases s.len(),
{
    if s.len() > 0 && is_whitespace(s[0]) {
        lemma_words_skip_spaces(s.skip(1));
        lemma_space_run(s.skip(1));
        assert(s.skip(1).skip(space_run(s.skip(1))) =~= s.skip(space_run(s)));
    } else {
        assert(s.skip(0) =~= s);
    }
}

/// The words of a text.
pub fn split_words(s: &[char]) -> (parts: Vec<Vec<char>>)
    ensures
        views(parts@) == words(s@),
{
    let mut parts: Vec<Vec<char>> = Vec::new();
    let mut start: usize = 0;
    proof {
        assert(s@.skip(0) =~= s@);
        assert(views(parts@) + words(s@) =~= words(s@));
    }
    while start < s.len()
        invariant
            start <= s.len(),
            words(s@) == views(parts@) + words(s@.skip(start as int)),
        decreases s.len() - start,
    {
        let ghost rest = s@.skip(start as int);
        let ghost before = parts@;
        let from = skip_spaces(s, start);
        proof {
            lemma_words_skip_spaces(rest);
            assert(rest.skip(from - start) =~= s@.skip(from as int));
        }
        if from < s.len() {
            let to = skip_word(s, from);
            let ghost tail = s@.skip(from as int);
            proof {
                lemma_space_run(rest);
                lemma_word_run(tail);
                assert(!is_whitespace(tail[0]));
            }
            parts.push(copy_range(s, from, to));
            proof {
                let word = tail.take(to - from);
                assert(s@.subrange(from as int, to as int) =~= word);
                assert(tail.skip(to - from) =~= s@.skip(to as int));
                assert(views(parts@) =~= views(before).push(word));
                assert(views(before) + (seq![word] + words(tail.skip(to - from))) =~= views(
                    parts@,
                ) + words(s@.skip(to as int)));
            }
            start = to;
        } else {
            start = s.len();
        }
    }
    proof {
        assert(s@.skip(start as int) =~= Seq::<char>::empty());
        assert(views(parts@) + words(s@.skip(start as int)) =~= views(parts@));
    }
    parts
}

/// Whether `needle` stands in `hay` at index `i`.
pub open spec fn occurs_at(hay: Seq<char>, needle: Seq<char>, i: int) -> bool {
    0 <= i && i + needle.len() <= hay.len() && hay.subrange(i, i + needle.len()) == needle
}

/// Whether `needle` stands somewhere in `hay`.
pub open spec fn contains(hay: Seq<char>, needle: Seq<char>) -> bool {
    exists|i: int| occurs_at(hay, needle, i)
}

/// Whether `s` begins with `prefix`.
pub open spec fn starts_with(s: Seq<char>, prefix: Seq<char>) -> bool {
    occurs_at(s, prefix, 0)
}

/// Whether `s` ends with `suffix`.
pub open spec fn ends_with(s: Seq<char>, suffix: Seq<char>) -> bool {
    occurs_at(s, suffix, s.len() - suffix.len())
}

/// Whether `needle` stands in `hay` at index `i`.
pub fn matches_at(hay: &[char], needle: &[char], i: usize) -> (r: bool)
    ensures
        r == occurs_at(hay@, needle@, i as int),
{
    if needle.len() > hay.len() || i > hay.len() - needle.len() {
        return false;
    }
    let mut k: usize = 0;
    while k < needle.len()
        invariant
            k <= needle.len(),
            i + needle.len() <= hay.len(),
            forall|j: int| 0 <= j < k ==> hay@[i + j] == needle@[j],
        decreases needle.len() - k,
    {
        if hay[i + k] != needle[k] {
            assert(hay@.subrange(i as int, i + needle.len())[k as int] != needle@[k as int]);
            return false;
        }
        k += 1;
    }
    assert(hay@.subrange(i as int, i + needle.len()) =~= needle@);
    true
}

/// Whether a text begins with `prefix`.
pub fn has_prefix(s: &[char], prefix: &[char]) -> (r: bool)
    ensures
        r == starts_with(s@, prefix@),
{
    matches_at(s, prefix, 0)
}

/// Whether a text ends with `suffix`.
pub fn has_suffix(s: &[char], suffix: &[char]) -> (r: bool)
    ensures
        r == ends_with(s@, suffix@),
{
    if suffix.len() > s.len() {
        return false;
    }
    matches_at(s, suffix, s.len() - suffix.len())
}

/// Whether `needle` stands somewhere in `hay`.
pub fn has_substring(hay: &[char], needle: &[char]) -> (r: bool)
    ensures
        r == contains(hay@, needle@),
{
    if needle.len() > hay.len() {
        return false;
    }
    let last: usize = hay.len() - needle.len();
    let mut i: usize = 0;
    while i < last
        invariant
            i <= last,
            last == hay.len() - needle.len(),
            forall|j: int| 0 <= j < i ==> !occurs_at(hay@, needle@, j),
        decreases last - i,
    {
        if matches_at(hay, needle, i) {
            return true;
        }
        i += 1;
    }
    matches_at(hay, needle, last)
}

} // verus!
