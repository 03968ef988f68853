//! Numbers and IP addresses in their textual forms.
//!
//! An unsigned number is written in decimal digits, with an optional `+` in
//! front. An IPv4 address is four octets in decimal, without leading zeros,
//! joined by dots. An IPv6 address is up to eight groups of one to four
//! hexadecimal digits joined by colons; one `::` stands for one or more groups
//! of zero, and the last two groups may be written as an IPv4 address.

use crate::text::{chars_of, lemma_split_head, lemma_split_whole, split, split_on, views};
use vstd::prelude::*;

verus! {

/// An IP address as the integer that its bits make.
#[derive(Clone, Copy, Debug, PartialEq, Eq, Structural)]
pub enum IpAddress {
    V4(u32),
    V6(u128),
}

/// Whether a character is a decimal digit.
pub open spec fn is_digit(c: char) -> bool {
    '0' <= c <= '9'
}

/// The value of a decimal digit.
pub open spec fn digit_value(c: char) -> nat {
    if is_digit(c) {
        (c as int - '0' as int) as nat
    } else {
        0
    }
}

/// Whether a text holds decimal digits only.
pub open spec fn all_digits(s: Seq<char>) -> bool {
    forall|i: int| 0 <= i < s.len() ==> is_digit(#[trigger] s[i])
}

/// The number that a run of decimal digits denotes.
pub open spec fn decimal(s: Seq<char>) -> nat
    decreases s.len(),
{
    if s.len() == 0 {
        0
    } else {
        decimal(s.drop_last()) * 10 + digit_value(s.last())
    }
}

/// The number that `s` denotes: decimal digits, at least one, after an
/// optional `+`, unless it is over `max`.
pub open spec fn unsigned_of(s: Seq<char>, max: nat) -> Option<nat> {
    let digits = if s.len() > 0 && s[0] == '+' {
        s.skip(1)
    } else {
        s
    };
    if digits.len() > 0 && all_digits(digits) && decimal(digits) <= max {
        Some(decimal(digits))
    } else {
        None
    }
}

/// Digits that follow make a number no smaller.
pub proof fn lemma_decimal_grows(s: Seq<char>, i: int)
    requires
        0 <= i <= s.len(),
    ensures
        decimal(s.take(i)) <= decimal(s),
    decreases s.len() - i,
{
    if i < s.len() {
        lemma_decimal_grows(s, i + 1);
        assert(s.take(i + 1).drop_last() =~= s.take(i));
    } else {
        assert(s.take(i) =~= s);
    }
}

fn digit_of(c: char) -> (r: Option<u64>)
    ensures
        r is Some == is_digit(c),
        r matches Some(d) ==> d == digit_value(c) && d <= 9,
{
    if c >= '0' && c <= '9' {
        Some((c as u32 - '0' as u32) as u64)
    } else {
        None
    }
}

/// The value of the digits of `s` from `from` on, where there is at least one,
/// every one is a digit and the value is not over `max`.
fn parse_digits(s: &[char], from: usize, max: u64) -> (r: Option<u64>)
    requires
        from <= s.len(),
    ensures
        match r {
            Some(v) => from < s.len() && all_digits(s@.skip(from as int)) && v == decimal(
                s@.skip(from as int),
            ) && v <= max,
            None => from == s.len() || !all_digits(s@.skip(from as int)) || decimal(
                s@.skip(from as int),
            ) > max,
        },
{
    let ghost digits = s@.skip(from as int);
    if from == s.len() {
        return None;
    }
    let mut acc: u64 = 0;
    let mut i: usize = from;
    while i < s.len()
        invariant
            from <= i <= s.len(),
            digits == s@.skip(from as int),
            all_digits(digits.take(i - from)),
            acc == decimal(digits.take(i - from)),
            acc <= max,
        decreases s.len() - i,
    {
        let ghost k = i - from;
        proof {
            assert(digits[k] == s@[i as int]);
            assert(digits.take(k + 1).drop_last() =~= digits.take(k));
            lemma_decimal_grows(digits, k + 1);
        }
        match digit_of(s[i]) {
            None => {
                return None;
            },
            Some(d) => {
                if d > max || acc > (max - d) / 10 {
                    assert(!all_digits(digits) || decimal(digits) > max);
                    return None;
                }
                acc = acc * 10 + d;
                assert forall|j: int| 0 <= j < k + 1 implies is_digit(
                    #[trigger] digits.take(k + 1)[j],
                ) by {
                    if j < k {
                        assert(digits.take(k)[j] == digits[j]);
                    }
                }
            },
        }
        i += 1;
    }
    proof {
        assert(digits.take(s.len() - from) =~= digits);
    }
    Some(acc)
}

/// Reads an unsigned number that is not over `max`.
pub fn parse_unsigned(s: &[char], max: u64) -> (r: Option<u64>)
    ensures
        match r {
            Some(v) => unsigned_of(s@, max as nat) == Some(v as nat),
            None => unsigned_of(s@, max as nat) is None,
        },
{
    if s.len() > 0 && s[0] == '+' {
        parse_digits(s, 1, max)
    } else {
        proof {
            assert(s@.skip(0) =~= s@);
        }
        parse_digits(s, 0, max)
    }
}

/// The octet that `s` denotes: one to three digits, no zero in front of
/// another digit, at most 255.
pub open spec fn octet_of(s: Seq<char>) -> Option<u8> {
    if 1 <= s.len() <= 3 && all_digits(s) && (s.len() == 1 || s[0] != '0') && decimal(s) <= 255 {
        Some(decimal(s) as u8)
    } else {
        None
    }
}

/// One digit more makes ten times the number, and the digit.
pub proof fn lemma_decimal_push(s: Seq<char>, d: char)
    ensures
        decimal(s.push(d)) == decimal(s) * 10 + digit_value(d),
{
    assert(s.push(d).drop_last() =~= s);
}

fn parse_octet(s: &[char]) -> (r: Option<u8>)
    ensures
        r == octet_of(s@),
{
    if s.len() < 1 || s.len() > 3 {
        return None;
    }
    if s.len() > 1 && s[0] == '0' {
        return None;
    }
    proof {
        assert(s@.skip(0) =~= s@);
    }
    match parse_digits(s, 0, 255) {
        Some(v) => Some(v as u8),
        None => None,
    }
}

/// The IPv4 address that `s` denotes.
pub open spec fn ipv4_of(s: Seq<char>) -> Option<u32> {
    let p = split_on(s, '.');
    if p.len() == 4 && octet_of(p[0]) is Some && octet_of(p[1]) is Some && octet_of(p[2]) is Some
        && octet_of(p[3]) is Some {
        Some(
            (octet_of(p[0])->0 * 0x100_0000 + octet_of(p[1])->0 * 0x1_0000 + octet_of(p[2])->0
                * 0x100 + octet_of(p[3])->0) as u32,
        )
    } else {
        None
    }
}

/// Reads an IPv4 address.
pub fn parse_ipv4(s: &[char]) -> (r: Option<u32>)
    ensures
        r == ipv4_of(s@),
{
    let parts = split(s, '.');
    if parts.len() != 4 {
        return None;
    }
    proof {
        let p = views(parts@);
        assert(p[0] == parts@[0]@ && p[1] == parts@[1]@ && p[2] == parts@[2]@ && p[3]
            == parts@[3]@);
    }
    let a = parse_octet(parts[0].as_slice());
    let b = parse_octet(parts[1].as_slice());
    let c = parse_octet(parts[2].as_slice());
    let d = parse_octet(parts[3].as_slice());
    match (a, b, c, d) {
        (Some(a), Some(b), Some(c), Some(d)) => Some(
            a as u32 * 0x100_0000 + b as u32 * 0x1_0000 + c as u32 * 0x100 + d as u32,
        ),
        _ => None,
    }
}

/// Whether a character is a hexadecimal digit, in either case.
/// Four texts joined by dots.
pub open spec fn dotted(a: Seq<char>, b: Seq<char>, c: Seq<char>, d: Seq<char>) -> Seq<char> {
    a + seq!['.'] + b + seq!['.'] + c + seq!['.'] + d
}

proof fn lemma_octet_has_no_dot(a: Seq<char>)
    requires
        octet_of(a) is Some,
    ensures
        forall|j: int| 0 <= j < a.len() ==> a[j] != '.',
{
    assert forall|j: int| 0 <= j < a.len() implies a[j] != '.' by {
        assert(is_digit(a[j]));
    }
}

/// Four octets joined by dots denote the address that they make.
pub proof fn lemma_ipv4_of_octets(a: Seq<char>, b: Seq<char>, c: Seq<char>, d: Seq<char>)
    requires
        octet_of(a) is Some,
        octet_of(b) is Some,
        octet_of(c) is Some,
        octet_of(d) is Some,
    ensures
        ipv4_of(dotted(a, b, c, d)) == Some(
            (octet_of(a)->0 * 0x100_0000 + octet_of(b)->0 * 0x1_0000 + octet_of(c)->0 * 0x100
                + octet_of(d)->0) as u32,
        ),
        ip_of(dotted(a, b, c, d)) == Some(
            IpAddress::V4(
                (octet_of(a)->0 * 0x100_0000 + octet_of(b)->0 * 0x1_0000 + octet_of(c)->0 * 0x100
                    + octet_of(d)->0) as u32,
            ),
        ),
{
    let r2 = c + seq!['.'] + d;
    let r1 = b + seq!['.'] + r2;
    let s = a + seq!['.'] + r1;
    assert(s =~= dotted(a, b, c, d));
    lemma_octet_has_no_dot(a);
    lemma_octet_has_no_dot(b);
    lemma_octet_has_no_dot(c);
    lemma_octet_has_no_dot(d);
    lemma_split_head(a, '.', r1);
    lemma_split_head(b, '.', r2);
    lemma_split_head(c, '.', d);
    lemma_split_whole(d, '.');
    let p = split_on(s, '.');
    assert(p =~= seq![a, b, c, d]);
}

pub open spec fn is_hex_digit(c: char) -> bool {
    is_digit(c) || 'a' <= c <= 'f' || 'A' <= c <= 'F'
}

/// The value of a hexadecimal digit.
pub open spec fn hex_digit_value(c: char) -> nat {
    if is_digit(c) {
        (c as int - '0' as int) as nat
    } else if 'a' <= c <= 'f' {
        (c as int - 'a' as int + 10) as nat
    } else if 'A' <= c <= 'F' {
        (c as int - 'A' as int + 10) as nat
    } else {
        0
    }
}

/// Whether a text holds hexadecimal digits only.
pub open spec fn all_hex_digits(s: Seq<char>) -> bool {
    forall|i: int| 0 <= i < s.len() ==> is_hex_digit(#[trigger] s[i])
}

/// The number that a run of hexadecimal digits denotes.
pub open spec fn hexadecimal(s: Seq<char>) -> nat
    decreases s.len(),
{
    if s.len() == 0 {
        0
    } else {
        hexadecimal(s.drop_last()) * 16 + hex_digit_value(s.last())
    }
}

/// The group of an IPv6 address that `s` denotes: one to four hexadecimal digits.
pub open spec fn group_of(s: Seq<char>) -> Option<u16> {
    if 1 <= s.len() <= 4 && all_hex_digits(s) {
        Some(hexadecimal(s) as u16)
    } else {
        None
    }
}

fn hex_digit_of(c: char) -> (r: Option<u32>)
    ensures
        r is Some == is_hex_digit(c),
        r matches Some(d) ==> d == hex_digit_value(c) && d <= 15,
{
    if c >= '0' && c <= '9' {
        Some(c as u32 - '0' as u32)
    } else if c >= 'a' && c <= 'f' {
        Some(c as u32 - 'a' as u32 + 10)
    } else if c >= 'A' && c <= 'F' {
        Some(c as u32 - 'A' as u32 + 10)
    } else {
        None
    }
}

proof fn lemma_hexadecimal_bound(s: Seq<char>)
    requires
        s.len() <= 4,
    ensures
        hexadecimal(s) < 0x1_0000,
        s.len() <= 3 ==> hexadecimal(s) < 0x1000,
        s.len() <= 2 ==> hexadecimal(s) < 0x100,
        s.len() <= 1 ==> hexadecimal(s) < 0x10,
    decreases s.len(),
{
    if s.len() > 0 {
        lemma_hexadecimal_bound(s.drop_last());
    }
}

fn parse_group(s: &[char]) -> (r: Option<u16>)
    ensures
        r == group_of(s@),
{
    if s.len() < 1 || s.len() > 4 {
        return None;
    }
    let mut acc: u32 = 0;
    let mut i: usize = 0;
    while i < s.len()
        invariant
            i <= s.len() <= 4,
            all_hex_digits(s@.take(i as int)),
            acc == hexadecimal(s@.take(i as int)),
            acc < 0x1_0000,
            i < 4 ==> acc < 0x1000,
        decreases s.len() - i,
    {
        proof {
            assert(s@.take(i + 1).drop_last() =~= s@.take(i as int));
            lemma_hexadecimal_bound(s@.take(i as int));
            lemma_hexadecimal_bound(s@.take(i + 1));
        }
        match hex_digit_of(s[i]) {
            None => {
                return None;
            },
            Some(d) => {
                acc = acc * 16 + d;
                assert forall|j: int| 0 <= j < i + 1 implies is_hex_digit(
                    #[trigger] s@.take(i + 1)[j],
                ) by {
                    if j < i {
                        assert(s@.take(i as int)[j] == s@[j]);
                    }
                }
            },
        }
        i += 1;
    }
    proof {
        assert(s@.take(s.len() as int) =~= s@);
    }
    Some(acc as u16)
}

/// The groups that a list of pieces denotes; only the last piece may be an IPv4
/// address, which makes two groups, and only where `v4_tail` allows it.
pub open spec fn pieces_groups(p: Seq<Seq<char>>, v4_tail: bool) -> Option<Seq<u16>>
    decreases p.len(),
{
    if p.len() == 0 {
        Some(Seq::empty())
    } else {
        match pieces_groups(p.drop_last(), false) {
            None => None,
            Some(head) => match group_of(p.last()) {
                Some(g) => Some(head.push(g)),
                None => if v4_tail {
                    match ipv4_of(p.last()) {
                        Some(a) => Some(head.push((a / 0x1_0000) as u16).push((a % 0x1_0000) as u16)),
                        None => None,
                    }
                } else {
                    None
                },
            },
        }
    }
}

/// The groups that `s` denotes: none where it is empty, else those of the pieces
/// between its colons.
pub open spec fn groups_of(s: Seq<char>, v4_tail: bool) -> Option<Seq<u16>> {
    if s.len() == 0 {
        Some(Seq::empty())
    } else {
        pieces_groups(split_on(s, ':'), v4_tail)
    }
}

proof fn lemma_pieces_fail(p: Seq<Seq<char>>, k: int, v4_tail: bool)
    requires
        0 <= k < p.len(),
        pieces_groups(p.take(k), false) is None,
    ensures
        pieces_groups(p, v4_tail) is None,
    decreases p.len(),
{
    if k < p.len() - 1 {
        assert(p.drop_last().take(k) =~= p.take(k));
        lemma_pieces_fail(p.drop_last(), k, false);
    } else {
        assert(p.drop_last() =~= p.take(k));
    }
}

fn parse_groups(s: &[char], v4_tail: bool) -> (r: Option<Vec<u16>>)
    ensures
        match r {
            Some(g) => groups_of(s@, v4_tail) == Some(g@),
            None => groups_of(s@, v4_tail) is None,
        },
{
    let mut out: Vec<u16> = Vec::new();
    if s.len() == 0 {
        return Some(out);
    }
    let parts = split(s, ':');
    let ghost p = views(parts@);
    let n = parts.len();
    let mut i: usize = 0;
    proof {
        assert(p.take(0) =~= Seq::<Seq<char>>::empty());
    }
    while i < n
        invariant
            i <= n,
            n == parts.len(),
            s.len() > 0,
            p == views(parts@),
            p == split_on(s@, ':'),
            pieces_groups(p.take(i as int), false) == Some(out@),
        decreases n - i,
    {
        let piece = parts[i].as_slice();
        let ghost before = out@;
        proof {
            assert(p[i as int] == piece@);
            assert(p.take(i + 1).drop_last() =~= p.take(i as int));
            assert(p.take(i + 1).last() == piece@);
            if i + 1 == n {
                assert(p.take(i + 1) =~= p);
            }
        }
        match parse_group(piece) {
            Some(g) => {
                out.push(g);
            },
            None => {
                if v4_tail && i + 1 == n {
                    match parse_ipv4(piece) {
                        Some(a) => {
                            out.push((a / 0x1_0000) as u16);
                            out.push((a % 0x1_0000) as u16);
                            return Some(out);
                        },
                        None => {
                            return None;
                        },
                    }
                } else {
                    proof {
                        if i + 1 < n {
                            lemma_pieces_fail(p, i + 1, v4_tail);
                        }
                    }
                    return None;
                }
            },
        }
        i += 1;
    }
    proof {
        assert(p.take(n as int) =~= p);
        lemma_pieces_plain(p, v4_tail);
    }
    Some(out)
}

/// Where every piece is a group, it does not matter whether an IPv4 address
/// would have been allowed at the end.
proof fn lemma_pieces_plain(p: Seq<Seq<char>>, v4_tail: bool)
    requires
        pieces_groups(p, false) is Some,
    ensures
        pieces_groups(p, v4_tail) == pieces_groups(p, false),
{
}

/// Whether a `::` begins at index `j` of `s`.
pub open spec fn gap_at(s: Seq<char>, j: int) -> bool {
    0 <= j && j + 1 < s.len() && s[j] == ':' && s[j + 1] == ':'
}

/// The index at which the first `::` of `s` begins, or the length of `s`
/// where it has none.
pub open spec fn gap_position(s: Seq<char>) -> int
    decreases s.len(),
{
    if s.len() < 2 {
        s.len() as int
    } else if s[0] == ':' && s[1] == ':' {
        0
    } else {
        1 + gap_position(s.skip(1))
    }
}

proof fn lemma_gap_position_is(s: Seq<char>, i: int)
    requires
        0 <= i <= s.len(),
        forall|j: int| 0 <= j < i ==> !#[trigger] gap_at(s, j),
        i == s.len() || gap_at(s, i),
    ensures
        gap_position(s) == i,
    decreases s.len(),
{
    if s.len() >= 2 {
        if i > 0 {
            assert(!gap_at(s, 0));
            assert forall|j: int| 0 <= j < i - 1 implies !#[trigger] gap_at(s.skip(1), j) by {
                assert(!gap_at(s, j + 1));
                if j + 1 < s.skip(1).len() {
                    assert(s.skip(1)[j] == s[j + 1]);
                    assert(s.skip(1)[j + 1] == s[j + 2]);
                }
            }
            if i < s.len() {
                assert(s.skip(1)[i - 1] == s[i]);
                assert(s.skip(1)[i] == s[i + 1]);
            }
            lemma_gap_position_is(s.skip(1), i - 1);
        }
    } else if s.len() == 1 {
        assert(!gap_at(s, 0));
    }
}

fn find_gap(s: &[char]) -> (i: usize)
    ensures
        i == gap_position(s@),
        i <= s.len(),
        i < s.len() ==> i + 2 <= s.len(),
{
    let mut i: usize = 0;
    while i < s.len()
        invariant
            i <= s.len(),
            forall|j: int| 0 <= j < i ==> !#[trigger] gap_at(s@, j),
        decreases s.len() - i,
    {
        if s[i] == ':' && i + 1 < s.len() && s[i + 1] == ':' {
            proof {
                lemma_gap_position_is(s@, i as int);
            }
            return i;
        }
        i += 1;
    }
    proof {
        lemma_gap_position_is(s@, i as int);
    }
    i
}

/// The address that eight groups make.
pub open spec fn ipv6_value(g: Seq<u16>) -> u128
    recommends
        g.len() == 8,
{
    (g[0] * 0x1_0000_0000_0000_0000_0000_0000_0000 + g[1] * 0x1_0000_0000_0000_0000_0000_0000
        + g[2] * 0x1_0000_0000_0000_0000_0000 + g[3] * 0x1_0000_0000_0000_0000 + g[4]
        * 0x1_0000_0000_0000 + g[5] * 0x1_0000_0000 + g[6] * 0x1_0000 + g[7]) as u128
}

/// `n` groups of zero.
pub open spec fn zero_groups(n: int) -> Seq<u16> {
    Seq::new(n as nat, |i: int| 0u16)
}

/// The IPv6 address that `s` denotes.
pub open spec fn ipv6_of(s: Seq<char>) -> Option<u128> {
    let k = gap_position(s);
    if 0 <= k < s.len() {
        match (groups_of(s.take(k), false), groups_of(s.skip(k + 2), true)) {
            (Some(head), Some(tail)) => if head.len() + tail.len() <= 7 {
                Some(ipv6_value(head + zero_groups(8 - head.len() - tail.len()) + tail))
            } else {
                None
            },
            _ => None,
        }
    } else {
        match groups_of(s, true) {
            Some(g) => if g.len() == 8 {
                Some(ipv6_value(g))
            } else {
                None
            },
            None => None,
        }
    }
}

fn value_of_groups(g: &Vec<u16>) -> (r: u128)
    requires
        g.len() == 8,
    ensures
        r == ipv6_value(g@),
{
    g[0] as u128 * 0x1_0000_0000_0000_0000_0000_0000_0000 + g[1] as u128
        * 0x1_0000_0000_0000_0000_0000_0000 + g[2] as u128 * 0x1_0000_0000_0000_0000_0000
        + g[3] as u128 * 0x1_0000_0000_0000_0000 + g[4] as u128 * 0x1_0000_0000_0000
        + g[5] as u128 * 0x1_0000_0000 + g[6] as u128 * 0x1_0000 + g[7] as u128
}

/// Reads an IPv6 address.
pub fn parse_ipv6(s: &[char]) -> (r: Option<u128>)
    ensures
        r == ipv6_of(s@),
{
    let k = find_gap(s);
    if k < s.len() {
        let head = parse_groups(vstd::slice::slice_subrange(s, 0, k), false);
        let tail = parse_groups(vstd::slice::slice_subrange(s, k + 2, s.len()), true);
        proof {
            assert(s@.subrange(0, k as int) =~= s@.take(k as int));
            assert(s@.subrange(k + 2, s.len() as int) =~= s@.skip(k + 2));
        }
        match (head, tail) {
            (Some(head), Some(tail)) => {
                if head.len() > 7 || tail.len() > 7 - head.len() {
                    return None;
                }
                let mut all: Vec<u16> = Vec::new();
                let mut i: usize = 0;
                while i < head.len()
                    invariant
                        i <= head.len(),
                        all@ == head@.take(i as int),
                    decreases head.len() - i,
                {
                    all.push(head[i]);
                    i += 1;
                }
                let zeros: usize = 8 - head.len() - tail.len();
                let mut z: usize = 0;
                while z < zeros
                    invariant
                        z <= zeros,
                        all@ == head@.take(head.len() as int) + zero_groups(z as int),
                    decreases zeros - z,
                {
                    all.push(0);
                    z += 1;
                }
                let mut j: usize = 0;
                while j < tail.len()
                    invariant
                        j <= tail.len(),
                        all@ == head@.take(head.len() as int) + zero_groups(zeros as int)
                            + tail@.take(j as int),
                    decreases tail.len() - j,
                {
                    all.push(tail[j]);
                    j += 1;
                }
                proof {
                    assert(head@.take(head.len() as int) =~= head@);
                    assert(tail@.take(tail.len() as int) =~= tail@);
                }
                Some(value_of_groups(&all))
            },
            _ => None,
        }
    } else {
        match parse_groups(s, true) {
            Some(g) => {
                if g.len() == 8 {
                    Some(value_of_groups(&g))
                } else {
                    None
                }
            },
            None => None,
        }
    }
}

/// The IP address that `s` denotes: an IPv4 address, or else an IPv6 address.
pub open spec fn ip_of(s: Seq<char>) -> Option<IpAddress> {
    match ipv4_of(s) {
        Some(a) => Some(IpAddress::V4(a)),
        None => match ipv6_of(s) {
            Some(a) => Some(IpAddress::V6(a)),
            None => None,
        },
    }
}

/// Reads an IP address of either kind.
pub fn parse_ip(s: &[char]) -> (r: Option<IpAddress>)
    ensures
        r == ip_of(s@),
{
    match parse_ipv4(s) {
        Some(a) => Some(IpAddress::V4(a)),
        None => match parse_ipv6(s) {
            Some(a) => Some(IpAddress::V6(a)),
            None => None,
        },
    }
}

impl IpAddress {
    /// Reads an address from its textual form.
    pub fn parse(s: &str) -> (r: Option<IpAddress>)
        ensures
            r == ip_of(s@),
    {
        let chars = chars_of(s);
        parse_ip(chars.as_slice())
    }
}

} // verus!
