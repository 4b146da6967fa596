//! Network addresses as plain values.
//!
//! An address is an IPv4 address (four octets) or an IPv6 address (eight
//! 16-bit groups). The text forms are the usual ones: the dotted quad
//! with canonical decimal octets, and the IPv6 forms with one-to-four
//! hex-digit groups, at most one `::` compression, and an optional
//! embedded IPv4 tail. An address text is tried as IPv4 first, then as
//! IPv6; written back out, an IPv6 address takes the canonical
//! compressed lowercase form (longest zero run compressed, the
//! IPv4-mapped block shown with its embedded dotted quad).

use vstd::prelude::*;
use vstd::string::*;

use crate::text::{spec_decimal, spec_digit};

verus! {

/// An IPv4 address as four plain octets.
#[derive(Clone, Copy, Debug, PartialEq, Eq, Structural)]
pub struct Ipv4Address(pub u8, pub u8, pub u8, pub u8);

/// An IPv6 address as eight plain 16-bit groups.
#[derive(Clone, Copy, Debug, PartialEq, Eq, Structural)]
pub struct Ipv6Address(
    pub u16,
    pub u16,
    pub u16,
    pub u16,
    pub u16,
    pub u16,
    pub u16,
    pub u16,
);

/// An address of either family.
#[derive(Clone, Copy, Debug, PartialEq, Eq, Structural)]
pub enum IpAddress {
    V4(Ipv4Address),
    V6(Ipv6Address),
}

/// The eight groups of an IPv6 address, in order.
pub open spec fn ipv6_groups(ip: Ipv6Address) -> Seq<u16> {
    seq![ip.0, ip.1, ip.2, ip.3, ip.4, ip.5, ip.6, ip.7]
}

/// An IPv6 address built from eight groups.
pub open spec fn ipv6_of_groups(gs: Seq<u16>) -> Ipv6Address
    recommends
        gs.len() == 8,
{
    Ipv6Address(gs[0], gs[1], gs[2], gs[3], gs[4], gs[5], gs[6], gs[7])
}

/// Whether `c` is a decimal digit.
pub open spec fn is_digit_char(c: char) -> bool {
    48 <= (c as u32) <= 57
}

/// The numeric value of the digit `c`.
pub open spec fn digit_val(c: char) -> nat {
    ((c as u32) - 48) as nat
}

/// The number the digit characters `s` spell in base ten.
pub open spec fn digits_val(s: Seq<char>) -> nat
    decreases s.len(),
{
    if s.len() == 0 {
        0
    } else {
        digits_val(s.drop_last()) * 10 + digit_val(s.last())
    }
}

/// The octet a segment of an address text stands for: one to three
/// digits, no leading zero, at most 255.
pub open spec fn spec_parse_octet(s: Seq<char>) -> Option<u8> {
    if 1 <= s.len() <= 3 && (forall|j: int| 0 <= j < s.len() ==> is_digit_char(s[j])) && !(
    s.len() > 1 && s[0] == '0') && digits_val(s) <= 255 {
        Some(digits_val(s) as u8)
    } else {
        None
    }
}

/// The first position at or after `from` where `c` stands in `s`, or the
/// length of `s` where there is none.
pub open spec fn find_char(s: Seq<char>, c: char, from: int) -> int
    decreases s.len() - from,
{
    if from < 0 || from >= s.len() {
        s.len() as int
    } else if s[from] == c {
        from
    } else {
        find_char(s, c, from + 1)
    }
}

/// The address an address text stands for: four octet segments separated
/// by exactly three dots.
pub open spec fn spec_parse_ipv4(s: Seq<char>) -> Option<Ipv4Address> {
    let i = find_char(s, '.', 0);
    let j = find_char(s, '.', i + 1);
    let k = find_char(s, '.', j + 1);
    let l = find_char(s, '.', k + 1);
    if i < s.len() && j < s.len() && k < s.len() && l == s.len() {
        match (spec_parse_octet(s.subrange(0, i)), spec_parse_octet(s.subrange(i + 1, j)),
        spec_parse_octet(s.subrange(j + 1, k)), spec_parse_octet(
            s.subrange(k + 1, s.len() as int),
        )) {
            (Some(a), Some(b), Some(c), Some(d)) => Some(Ipv4Address(a, b, c, d)),
            _ => None,
        }
    } else {
        None
    }
}

/// The canonical text of an IPv4 address.
pub open spec fn spec_ipv4_text(ip: Ipv4Address) -> Seq<char> {
    spec_decimal(ip.0 as nat) + seq!['.'] + spec_decimal(ip.1 as nat) + seq!['.'] + spec_decimal(
        ip.2 as nat,
    ) + seq!['.'] + spec_decimal(ip.3 as nat)
}

/// What the found position means: no occurrence before it, and an
/// occurrence at it unless the end was reached.
pub proof fn lemma_find_char_props(s: Seq<char>, c: char, from: int)
    requires
        0 <= from <= s.len(),
    ensures
        from <= find_char(s, c, from) <= s.len(),
        forall|j: int| from <= j < find_char(s, c, from) ==> s[j] != c,
        find_char(s, c, from) < s.len() ==> s[find_char(s, c, from)] == c,
    decreases s.len() - from,
{
    if from < s.len() && s[from] != c {
        lemma_find_char_props(s, c, from + 1);
    }
}

proof fn lemma_find_char_is(s: Seq<char>, c: char, from: int, i: int)
    requires
        0 <= from <= i <= s.len(),
        forall|j: int| from <= j < i ==> s[j] != c,
        i == s.len() || s[i] == c,
    ensures
        find_char(s, c, from) == i,
    decreases i - from,
{
    if from < i {
        lemma_find_char_is(s, c, from + 1, i);
    }
}

proof fn lemma_digits_val_bound(s: Seq<char>)
    requires
        s.len() <= 3,
        forall|j: int| 0 <= j < s.len() ==> is_digit_char(s[j]),
    ensures
        s.len() == 0 ==> digits_val(s) == 0,
        s.len() <= 1 ==> digits_val(s) <= 9,
        s.len() <= 2 ==> digits_val(s) <= 99,
        digits_val(s) <= 999,
    decreases s.len(),
{
    if s.len() > 0 {
        assert(forall|j: int|
            0 <= j < s.drop_last().len() ==> is_digit_char(#[trigger] s.drop_last()[j]));
        lemma_digits_val_bound(s.drop_last());
        assert(is_digit_char(s[s.len() - 1]));
        assert(digit_val(s.last()) <= 9);
    }
}

proof fn lemma_decimal_digits(n: nat)
    ensures
        forall|j: int|
            0 <= j < spec_decimal(n).len() ==> is_digit_char(#[trigger] spec_decimal(n)[j]),
        spec_decimal(n).len() >= 1,
        digits_val(spec_decimal(n)) == n,
        spec_decimal(n)[0] == '0' ==> n == 0,
        n <= 9 ==> spec_decimal(n).len() == 1,
        n <= 99 ==> spec_decimal(n).len() <= 2,
        n <= 255 ==> spec_decimal(n).len() <= 3,
    decreases n,
{
    if n < 10 {
        assert(spec_decimal(n) =~= seq![spec_digit(n)]);
        assert(spec_decimal(n).drop_last() =~= Seq::<char>::empty());
        assert(digits_val(Seq::<char>::empty()) == 0);
        assert(spec_decimal(n).last() == spec_digit(n));
        assert(is_digit_char(spec_digit(n)));
        assert(digit_val(spec_digit(n)) == n);
    } else {
        lemma_decimal_digits(n / 10);
        let whole = spec_decimal(n);
        let head = spec_decimal(n / 10);
        assert(whole.drop_last() =~= head);
        assert(whole.last() == spec_digit(n % 10));
        assert(is_digit_char(spec_digit(n % 10)));
        assert(digit_val(spec_digit(n % 10)) == n % 10);
        assert(digits_val(whole) == digits_val(head) * 10 + n % 10);
        assert(whole[0] == head[0]);
    }
}

/// Writing an address as text and reading the text back yields the
/// address: the canonical dotted-quad text of an IPv4 address parses to
/// exactly that address.
pub proof fn lemma_ipv4_text_round_trip(ip: Ipv4Address)
    ensures
        spec_parse_ipv4(spec_ipv4_text(ip)) == Some(ip),
{
    let a = spec_decimal(ip.0 as nat);
    let b = spec_decimal(ip.1 as nat);
    let c = spec_decimal(ip.2 as nat);
    let d = spec_decimal(ip.3 as nat);
    lemma_decimal_digits(ip.0 as nat);
    lemma_decimal_digits(ip.1 as nat);
    lemma_decimal_digits(ip.2 as nat);
    lemma_decimal_digits(ip.3 as nat);
    let t = spec_ipv4_text(ip);
    let la = a.len() as int;
    let i = la;
    let j = la + 1 + b.len();
    let k = j + 1 + c.len();
    let end = k + 1 + d.len();
    assert(t.len() == end);
    assert(forall|x: int| 0 <= x < la ==> t[x] == a[x]);
    assert(t[i] == '.');
    assert(forall|x: int| i + 1 <= x < j ==> t[x] == b[x - (i + 1)]);
    assert(t[j] == '.');
    assert(forall|x: int| j + 1 <= x < k ==> t[x] == c[x - (j + 1)]);
    assert(t[k] == '.');
    assert(forall|x: int| k + 1 <= x < end ==> t[x] == d[x - (k + 1)]);
    assert(forall|x: int| 0 <= x < la ==> t[x] != '.');
    assert(forall|x: int| i + 1 <= x < j ==> t[x] != '.');
    assert(forall|x: int| j + 1 <= x < k ==> t[x] != '.');
    assert(forall|x: int| k + 1 <= x < end ==> t[x] != '.');
    lemma_find_char_is(t, '.', 0, i);
    lemma_find_char_is(t, '.', i + 1, j);
    lemma_find_char_is(t, '.', j + 1, k);
    lemma_find_char_is(t, '.', k + 1, end);
    assert(t.subrange(0, i) =~= a);
    assert(t.subrange(i + 1, j) =~= b);
    assert(t.subrange(j + 1, k) =~= c);
    assert(t.subrange(k + 1, end) =~= d);
    assert(spec_parse_octet(a) == Some(ip.0));
    assert(spec_parse_octet(b) == Some(ip.1));
    assert(spec_parse_octet(c) == Some(ip.2));
    assert(spec_parse_octet(d) == Some(ip.3));
    assert(Ipv4Address(ip.0, ip.1, ip.2, ip.3) == ip);
}

fn find_dot(s: &str, from: usize) -> (r: usize)
    requires
        from <= s@.len(),
    ensures
        from <= r <= s@.len(),
        r == find_char(s@, '.', from as int),
    decreases s@.len() - from,
{
    let len = s.unicode_len();
    let mut i: usize = from;
    while i < len
        invariant
            from <= i <= len,
            len == s@.len(),
            forall|j: int| from <= j < i ==> s@[j] != '.',
        decreases len - i,
    {
        if s.get_char(i) == '.' {
            proof {
                lemma_find_char_is(s@, '.', from as int, i as int);
            }
            return i;
        }
        i += 1;
    }
    proof {
        lemma_find_char_is(s@, '.', from as int, len as int);
    }
    len
}

fn parse_octet(s: &str, from: usize, to: usize) -> (r: Option<u8>)
    requires
        from <= to <= s@.len(),
    ensures
        r == spec_parse_octet(s@.subrange(from as int, to as int)),
{
    let ghost seg = s@.subrange(from as int, to as int);
    if to - from < 1 || to - from > 3 {
        return None;
    }
    let mut val: u32 = 0;
    let mut i: usize = from;
    proof {
        assert(s@.subrange(from as int, from as int) =~= Seq::<char>::empty());
    }
    while i < to
        invariant
            from <= i <= to,
            to <= s@.len(),
            1 <= to - from <= 3,
            seg == s@.subrange(from as int, to as int),
            forall|j: int| from <= j < i ==> is_digit_char(s@[j]),
            val == digits_val(s@.subrange(from as int, i as int)),
        decreases to - i,
    {
        let c = s.get_char(i);
        let code = c as u32;
        if code < 48 || code > 57 {
            proof {
                assert(seg.len() == to - from);
                assert(0 <= i - from < seg.len());
                assert(seg[i - from] == s@[from + (i - from)]);
                assert(!is_digit_char(seg[i - from]));
            }
            return None;
        }
        proof {
            let prefix = s@.subrange(from as int, i as int);
            assert(forall|j: int| 0 <= j < prefix.len() ==> is_digit_char(#[trigger] prefix[j]));
            lemma_digits_val_bound(prefix);
            assert(s@.subrange(from as int, i + 1).drop_last() =~= prefix);
            assert(s@.subrange(from as int, i + 1).last() == s@[i as int]);
        }
        val = val * 10 + (code - 48);
        i += 1;
    }
    proof {
        assert(seg =~= s@.subrange(from as int, to as int));
        assert(forall|j: int| 0 <= j < seg.len() ==> is_digit_char(#[trigger] seg[j]));
    }
    if to - from > 1 && s.get_char(from) == '0' {
        proof {
            assert(seg[0] == s@[from as int]);
        }
        return None;
    }
    if val > 255 {
        return None;
    }
    Some(val as u8)
}

/// Reads the canonical dotted-quad text of an IPv4 address; anything else
/// is refused.
pub fn parse_ipv4(s: &str) -> (r: Option<Ipv4Address>)
    ensures
        r == spec_parse_ipv4(s@),
{
    let len = s.unicode_len();
    let i = find_dot(s, 0);
    if i == len {
        return None;
    }
    let j = find_dot(s, i + 1);
    if j == len {
        return None;
    }
    let k = find_dot(s, j + 1);
    if k == len {
        return None;
    }
    let l = find_dot(s, k + 1);
    if l != len {
        return None;
    }
    let a = parse_octet(s, 0, i);
    let b = parse_octet(s, i + 1, j);
    let c = parse_octet(s, j + 1, k);
    let d = parse_octet(s, k + 1, len);
    match (a, b, c, d) {
        (Some(a), Some(b), Some(c), Some(d)) => Some(Ipv4Address(a, b, c, d)),
        _ => None,
    }
}

/// Appends the canonical dotted-quad text of `ip` to `out`.
pub fn append_ipv4(out: &mut String, ip: &Ipv4Address)
    ensures
        final(out)@ == old(out)@ + spec_ipv4_text(*ip),
{
    proof {
        reveal_strlit(".");
    }
    crate::text::append_decimal(out, ip.0 as u64);
    out.append(".");
    crate::text::append_decimal(out, ip.1 as u64);
    out.append(".");
    crate::text::append_decimal(out, ip.2 as u64);
    out.append(".");
    crate::text::append_decimal(out, ip.3 as u64);
    proof {
        assert(final(out)@ =~= old(out)@ + spec_ipv4_text(*ip));
    }
}

/// Whether `c` is a hexadecimal digit of either case.
pub open spec fn is_hex_digit_char(c: char) -> bool {
    ||| 48 <= (c as u32) <= 57
    ||| 97 <= (c as u32) <= 102
    ||| 65 <= (c as u32) <= 70
}

/// The numeric value of the hexadecimal digit `c`.
pub open spec fn hex_digit_char_val(c: char) -> nat {
    if 48 <= (c as u32) <= 57 {
        ((c as u32) - 48) as nat
    } else if 97 <= (c as u32) <= 102 {
        ((c as u32) - 87) as nat
    } else {
        ((c as u32) - 55) as nat
    }
}

/// The end of the run of hexadecimal digits starting at `pos`.
pub open spec fn hex_run_end(s: Seq<char>, pos: int) -> int
    decreases s.len() - pos,
{
    if pos < 0 || pos >= s.len() || !is_hex_digit_char(s[pos]) {
        pos
    } else {
        hex_run_end(s, pos + 1)
    }
}

/// The end of the run of decimal digits starting at `pos`.
pub open spec fn dec_run_end(s: Seq<char>, pos: int) -> int
    decreases s.len() - pos,
{
    if pos < 0 || pos >= s.len() || !is_digit_char(s[pos]) {
        pos
    } else {
        dec_run_end(s, pos + 1)
    }
}

/// The number the hexadecimal digits `s[from..to]` spell.
pub open spec fn hex_value(s: Seq<char>, from: int, to: int) -> nat
    decreases to - from,
{
    if from >= to {
        0
    } else {
        hex_value(s, from, to - 1) * 16 + hex_digit_char_val(s[to - 1])
    }
}

proof fn lemma_hex_run_props(s: Seq<char>, pos: int)
    requires
        0 <= pos <= s.len(),
    ensures
        pos <= hex_run_end(s, pos) <= s.len(),
        forall|j: int| pos <= j < hex_run_end(s, pos) ==> is_hex_digit_char(s[j]),
        hex_run_end(s, pos) < s.len() ==> !is_hex_digit_char(s[hex_run_end(s, pos)]),
    decreases s.len() - pos,
{
    if pos < s.len() && is_hex_digit_char(s[pos]) {
        lemma_hex_run_props(s, pos + 1);
    }
}

proof fn lemma_dec_run_props(s: Seq<char>, pos: int)
    requires
        0 <= pos <= s.len(),
    ensures
        pos <= dec_run_end(s, pos) <= s.len(),
        forall|j: int| pos <= j < dec_run_end(s, pos) ==> is_digit_char(s[j]),
        dec_run_end(s, pos) < s.len() ==> !is_digit_char(s[dec_run_end(s, pos)]),
    decreases s.len() - pos,
{
    if pos < s.len() && is_digit_char(s[pos]) {
        lemma_dec_run_props(s, pos + 1);
    }
}

proof fn lemma_hex_value_bound(s: Seq<char>, from: int, to: int)
    requires
        from <= to,
        to - from <= 4,
        forall|j: int| from <= j < to ==> is_hex_digit_char(s[j]),
    ensures
        to - from <= 1 ==> hex_value(s, from, to) <= 15,
        to - from <= 2 ==> hex_value(s, from, to) <= 255,
        to - from <= 3 ==> hex_value(s, from, to) <= 4095,
        hex_value(s, from, to) <= 65535,
    decreases to - from,
{
    if from < to {
        lemma_hex_value_bound(s, from, to - 1);
        assert(is_hex_digit_char(s[to - 1]));
        assert(hex_digit_char_val(s[to - 1]) <= 15);
    }
}

fn hex_run_end_at(s: &str, pos: usize) -> (r: usize)
    requires
        pos <= s@.len(),
    ensures
        pos <= r <= s@.len(),
        r == hex_run_end(s@, pos as int),
    decreases s@.len() - pos,
{
    if pos == s.unicode_len() {
        pos
    } else {
        let u = s.get_char(pos) as u32;
        if (48 <= u && u <= 57) || (97 <= u && u <= 102) || (65 <= u && u <= 70) {
            hex_run_end_at(s, pos + 1)
        } else {
            pos
        }
    }
}

fn dec_run_end_at(s: &str, pos: usize) -> (r: usize)
    requires
        pos <= s@.len(),
    ensures
        pos <= r <= s@.len(),
        r == dec_run_end(s@, pos as int),
    decreases s@.len() - pos,
{
    if pos == s.unicode_len() {
        pos
    } else {
        let u = s.get_char(pos) as u32;
        if 48 <= u && u <= 57 {
            dec_run_end_at(s, pos + 1)
        } else {
            pos
        }
    }
}

fn read_hex_value(s: &str, from: usize, to: usize) -> (r: u32)
    requires
        from <= to <= s@.len(),
        to - from <= 4,
        forall|j: int| from <= j < to ==> is_hex_digit_char(s@[j]),
    ensures
        r == hex_value(s@, from as int, to as int),
        r <= 65535,
    decreases to - from,
{
    proof {
        lemma_hex_value_bound(s@, from as int, to as int);
    }
    if from == to {
        0
    } else {
        let hi = read_hex_value(s, from, to - 1);
        let u = s.get_char(to - 1) as u32;
        let d = if 48 <= u && u <= 57 {
            u - 48
        } else if 97 <= u && u <= 102 {
            u - 87
        } else {
            u - 55
        };
        proof {
            lemma_hex_value_bound(s@, from as int, to as int - 1);
        }
        hi * 16 + d
    }
}

/// One hexadecimal group: the maximal digit run at `pos`, one to four
/// digits long, leading zeros allowed.
pub open spec fn spec_read_group_at(s: Seq<char>, pos: int) -> Option<(u16, int)> {
    let e = hex_run_end(s, pos);
    if 1 <= e - pos <= 4 {
        Some((hex_value(s, pos, e) as u16, e))
    } else {
        None
    }
}

fn read_group_at(s: &str, pos: usize) -> (r: Option<(u16, usize)>)
    requires
        pos <= s@.len(),
    ensures
        (match (r, spec_read_group_at(s@, pos as int)) {
            (Some(t), Some(u)) => t.0 == u.0 && t.1 == u.1 && pos < t.1 <= s@.len(),
            (None, None) => true,
            _ => false,
        }),
{
    let e = hex_run_end_at(s, pos);
    proof {
        lemma_hex_run_props(s@, pos as int);
    }
    if 1 <= e - pos && e - pos <= 4 {
        let v = read_hex_value(s, pos, e);
        Some(((v as u16), e))
    } else {
        None
    }
}

/// One decimal octet: the maximal digit run at `pos`, read under the
/// octet rule (one to three digits, no leading zero, at most 255).
pub open spec fn spec_read_octet_at(s: Seq<char>, pos: int) -> Option<(u8, int)> {
    let e = dec_run_end(s, pos);
    match spec_parse_octet(s.subrange(pos, e)) {
        Some(o) => Some((o, e)),
        None => None,
    }
}

fn read_octet_at(s: &str, pos: usize) -> (r: Option<(u8, usize)>)
    requires
        pos <= s@.len(),
    ensures
        (match (r, spec_read_octet_at(s@, pos as int)) {
            (Some(t), Some(u)) => t.0 == u.0 && t.1 == u.1 && pos < t.1 <= s@.len(),
            (None, None) => true,
            _ => false,
        }),
{
    let e = dec_run_end_at(s, pos);
    proof {
        lemma_dec_run_props(s@, pos as int);
    }
    match parse_octet(s, pos, e) {
        Some(o) => Some((o, e)),
        None => None,
    }
}

/// An embedded dotted quad starting at `pos`: four octets joined by
/// dots, ending wherever the last octet's digits end.
pub open spec fn spec_read_ipv4_at(s: Seq<char>, pos: int) -> Option<(Ipv4Address, int)> {
    match spec_read_octet_at(s, pos) {
        Some((a, p1)) => if p1 < s.len() && s[p1] == '.' {
            match spec_read_octet_at(s, p1 + 1) {
                Some((b, p2)) => if p2 < s.len() && s[p2] == '.' {
                    match spec_read_octet_at(s, p2 + 1) {
                        Some((c, p3)) => if p3 < s.len() && s[p3] == '.' {
                            match spec_read_octet_at(s, p3 + 1) {
                                Some((d, p4)) => Some((Ipv4Address(a, b, c, d), p4)),
                                None => None,
                            }
                        } else {
                            None
                        },
                        None => None,
                    }
                } else {
                    None
                },
                None => None,
            }
        } else {
            None
        },
        None => None,
    }
}

fn read_ipv4_at(s: &str, pos: usize) -> (r: Option<(Ipv4Address, usize)>)
    requires
        pos <= s@.len(),
    ensures
        (match (r, spec_read_ipv4_at(s@, pos as int)) {
            (Some(t), Some(u)) => t.0 == u.0 && t.1 == u.1 && pos < t.1 <= s@.len(),
            (None, None) => true,
            _ => false,
        }),
{
    let len = s.unicode_len();
    match read_octet_at(s, pos) {
        Some((a, p1)) => {
            if p1 < len && s.get_char(p1) == '.' {
                match read_octet_at(s, p1 + 1) {
                    Some((b, p2)) => {
                        if p2 < len && s.get_char(p2) == '.' {
                            match read_octet_at(s, p2 + 1) {
                                Some((c, p3)) => {
                                    if p3 < len && s.get_char(p3) == '.' {
                                        match read_octet_at(s, p3 + 1) {
                                            Some((d, p4)) => Some((Ipv4Address(a, b, c, d), p4)),
                                            None => None,
                                        }
                                    } else {
                                        None
                                    }
                                },
                                None => None,
                            }
                        } else {
                            None
                        }
                    },
                    None => None,
                }
            } else {
                None
            }
        },
        None => None,
    }
}

/// The group made of two embedded octets.
pub open spec fn spec_octet_pair(hi: u8, lo: u8) -> u16 {
    ((hi as int) * 256 + (lo as int)) as u16
}

/// Reads up to `limit` colon-separated groups from `pos`: before every
/// group but the very first a colon is required; where at least two
/// slots remain, an embedded dotted quad (standing for two groups) is
/// tried first and, if it matches, ends the run. The result is the
/// groups read, the position after them, and whether a dotted quad was
/// taken.
pub open spec fn spec_read_groups(s: Seq<char>, pos: int, first: bool, limit: nat) -> (
    Seq<u16>,
    int,
    bool,
)
    decreases limit,
{
    if limit == 0 {
        (Seq::empty(), pos, false)
    } else if !first && !(0 <= pos < s.len() && s[pos] == ':') {
        (Seq::empty(), pos, false)
    } else {
        let p2 = if first {
            pos
        } else {
            pos + 1
        };
        let v4 = if limit >= 2 {
            spec_read_ipv4_at(s, p2)
        } else {
            None
        };
        match v4 {
            Some((ip, p3)) => (
                seq![spec_octet_pair(ip.0, ip.1), spec_octet_pair(ip.2, ip.3)],
                p3,
                true,
            ),
            None => match spec_read_group_at(s, p2) {
                Some((g, p3)) => {
                    let (rest, p4, used) = spec_read_groups(s, p3, false, (limit - 1) as nat);
                    (seq![g] + rest, p4, used)
                },
                None => (Seq::empty(), pos, false),
            },
        }
    }
}

fn read_groups(s: &str, pos: usize, first: bool, limit: usize) -> (r: (Vec<u16>, usize, bool))
    requires
        pos <= s@.len(),
    ensures
        ({
            let (gs, p, used) = spec_read_groups(s@, pos as int, first, limit as nat);
            &&& r.0@ == gs
            &&& r.1 == p
            &&& r.2 == used
            &&& pos <= r.1 <= s@.len()
            &&& r.0@.len() <= limit
        }),
    decreases limit,
{
    let len = s.unicode_len();
    if limit == 0 {
        (Vec::new(), pos, false)
    } else if !first && !(pos < len && s.get_char(pos) == ':') {
        (Vec::new(), pos, false)
    } else {
        let p2 = if first {
            pos
        } else {
            pos + 1
        };
        let v4 = if limit >= 2 {
            read_ipv4_at(s, p2)
        } else {
            None
        };
        match v4 {
            Some((ip, p3)) => {
                let mut gs: Vec<u16> = Vec::new();
                gs.push((ip.0 as u16) * 256 + (ip.1 as u16));
                gs.push((ip.2 as u16) * 256 + (ip.3 as u16));
                proof {
                    assert(gs@ =~= seq![spec_octet_pair(ip.0, ip.1), spec_octet_pair(ip.2, ip.3)]);
                }
                (gs, p3, true)
            },
            None => {
                match read_group_at(s, p2) {
                    Some((g, p3)) => {
                        let (rest, p4, used) = read_groups(s, p3, false, limit - 1);
                        let mut gs = rest;
                        gs.insert(0, g);
                        proof {
                            let (srest, _, _) = spec_read_groups(
                                s@,
                                p3 as int,
                                false,
                                (limit - 1) as nat,
                            );
                            assert(gs@ =~= seq![g] + srest);
                        }
                        (gs, p4, used)
                    },
                    None => (Vec::new(), pos, false),
                }
            },
        }
    }
}

/// The IPv6 address a whole text stands for: up to eight leading groups;
/// where fewer than eight, a `::` standing for the missing zero groups,
/// then the trailing groups; a dotted quad may close either run only as
/// its tail, and in the leading run only when it completes all eight
/// groups.
pub open spec fn spec_parse_ipv6(s: Seq<char>) -> Option<Ipv6Address> {
    let (head, p1, head_v4) = spec_read_groups(s, 0, true, 8);
    if head.len() == 8 {
        if p1 == s.len() {
            Some(ipv6_of_groups(head))
        } else {
            None
        }
    } else if head_v4 {
        None
    } else if p1 + 2 <= s.len() && s[p1] == ':' && s[p1 + 1] == ':' {
        let (tail, p2, _) = spec_read_groups(s, p1 + 2, true, (8 - head.len() - 1) as nat);
        if p2 == s.len() {
            Some(
                ipv6_of_groups(
                    head + Seq::new((8 - head.len() - tail.len()) as nat, |i: int| 0u16) + tail,
                ),
            )
        } else {
            None
        }
    } else {
        None
    }
}

/// Reads the text of an IPv6 address; anything else is refused.
pub fn parse_ipv6(s: &str) -> (r: Option<Ipv6Address>)
    ensures
        r == spec_parse_ipv6(s@),
{
    let len = s.unicode_len();
    let (head, p1, head_v4) = read_groups(s, 0, true, 8);
    if head.len() == 8 {
        if p1 == len {
            Some(Ipv6Address(head[0], head[1], head[2], head[3], head[4], head[5], head[6], head[7]))
        } else {
            None
        }
    } else if head_v4 {
        None
    } else if len >= 2 && p1 <= len - 2 && s.get_char(p1) == ':' && s.get_char(p1 + 1) == ':' {
        let (tail, p2, _) = read_groups(s, p1 + 2, true, 8 - head.len() - 1);
        if p2 == len {
            let mut gs = head;
            let mut zeros: usize = 8 - gs.len() - tail.len();
            while zeros > 0
                invariant
                    gs@.len() + zeros + tail@.len() == 8,
                    ({
                        let (shead, _, _) = spec_read_groups(s@, 0, true, 8);
                        gs@ == shead + Seq::new(
                            (8 - shead.len() - zeros - tail@.len()) as nat,
                            |i: int| 0u16,
                        )
                    }),
                decreases zeros,
            {
                gs.push(0);
                zeros = zeros - 1;
                proof {
                    let (shead, _, _) = spec_read_groups(s@, 0, true, 8);
                    assert(gs@ =~= shead + Seq::new(
                        (8 - shead.len() - zeros - tail@.len()) as nat,
                        |i: int| 0u16,
                    ));
                }
            }
            let mut i: usize = 0;
            while i < tail.len()
                invariant
                    i <= tail@.len(),
                    ({
                        let (shead, sp1, _) = spec_read_groups(s@, 0, true, 8);
                        let (stail, _, _) = spec_read_groups(
                            s@,
                            sp1 + 2,
                            true,
                            (8 - shead.len() - 1) as nat,
                        );
                        &&& tail@ == stail
                        &&& gs@ == shead + Seq::new(
                            (8 - shead.len() - stail.len()) as nat,
                            |j: int| 0u16,
                        ) + stail.take(i as int)
                    }),
                decreases tail@.len() - i,
            {
                gs.push(tail[i]);
                proof {
                    assert(tail@.take(i + 1) =~= tail@.take(i as int).push(tail@[i as int]));
                }
                i += 1;
            }
            proof {
                let (shead, sp1, _) = spec_read_groups(s@, 0, true, 8);
                let (stail, _, _) = spec_read_groups(
                    s@,
                    sp1 + 2,
                    true,
                    (8 - shead.len() - 1) as nat,
                );
                assert(stail.take(stail.len() as int) =~= stail);
                assert(gs@.len() == 8);
            }
            Some(Ipv6Address(gs[0], gs[1], gs[2], gs[3], gs[4], gs[5], gs[6], gs[7]))
        } else {
            None
        }
    } else {
        None
    }
}

/// The address a text stands for: tried as a dotted quad first, then as
/// an IPv6 text.
pub open spec fn spec_parse_ip(s: Seq<char>) -> Option<IpAddress> {
    match spec_parse_ipv4(s) {
        Some(v4) => Some(IpAddress::V4(v4)),
        None => match spec_parse_ipv6(s) {
            Some(v6) => Some(IpAddress::V6(v6)),
            None => None,
        },
    }
}

/// The lowercase hexadecimal digit character for `d`.
pub open spec fn spec_hex_lower(d: nat) -> char {
    if d < 10 {
        spec_digit(d)
    } else if d == 10 {
        'a'
    } else if d == 11 {
        'b'
    } else if d == 12 {
        'c'
    } else if d == 13 {
        'd'
    } else if d == 14 {
        'e'
    } else {
        'f'
    }
}

/// The canonical lowercase hexadecimal text of `n`: no leading zeros.
pub open spec fn spec_hex_text(n: nat) -> Seq<char>
    decreases n,
{
    if n < 16 {
        seq![spec_hex_lower(n)]
    } else {
        spec_hex_text(n / 16).push(spec_hex_lower(n % 16))
    }
}

fn hex_lower_str(d: u64) -> (r: &'static str)
    requires
        d < 16,
    ensures
        r@ =~= seq![spec_hex_lower(d as nat)],
{
    proof {
        reveal_strlit("0");
        reveal_strlit("1");
        reveal_strlit("2");
        reveal_strlit("3");
        reveal_strlit("4");
        reveal_strlit("5");
        reveal_strlit("6");
        reveal_strlit("7");
        reveal_strlit("8");
        reveal_strlit("9");
        reveal_strlit("a");
        reveal_strlit("b");
        reveal_strlit("c");
        reveal_strlit("d");
        reveal_strlit("e");
        reveal_strlit("f");
    }
    if d == 0 {
        "0"
    } else if d == 1 {
        "1"
    } else if d == 2 {
        "2"
    } else if d == 3 {
        "3"
    } else if d == 4 {
        "4"
    } else if d == 5 {
        "5"
    } else if d == 6 {
        "6"
    } else if d == 7 {
        "7"
    } else if d == 8 {
        "8"
    } else if d == 9 {
        "9"
    } else if d == 10 {
        "a"
    } else if d == 11 {
        "b"
    } else if d == 12 {
        "c"
    } else if d == 13 {
        "d"
    } else if d == 14 {
        "e"
    } else {
        "f"
    }
}

fn append_hex_u16(out: &mut String, n: u16)
    ensures
        final(out)@ == old(out)@ + spec_hex_text(n as nat),
    decreases n,
{
    if n < 16 {
        out.append(hex_lower_str(n as u64));
        assert(final(out)@ =~= old(out)@ + spec_hex_text(n as nat));
    } else {
        append_hex_u16(out, n / 16);
        out.append(hex_lower_str((n % 16) as u64));
        assert(final(out)@ =~= old(out)@ + spec_hex_text(n as nat));
    }
}

/// The length of the run of zero groups starting at `i`.
pub open spec fn zero_run_len(gs: Seq<u16>, i: int) -> int
    decreases gs.len() - i,
{
    if i < 0 || i >= gs.len() || gs[i] != 0 {
        0
    } else {
        1 + zero_run_len(gs, i + 1)
    }
}

/// The longest zero-run length at or after `i`.
pub open spec fn max_zero_run(gs: Seq<u16>, i: int) -> int
    decreases gs.len() - i,
{
    if i >= gs.len() {
        0
    } else if zero_run_len(gs, i) >= max_zero_run(gs, i + 1) {
        zero_run_len(gs, i)
    } else {
        max_zero_run(gs, i + 1)
    }
}

/// The first position at or after `i` whose zero run is as long as the
/// longest one.
pub open spec fn first_max_zero_start(gs: Seq<u16>, i: int) -> int
    decreases gs.len() - i,
{
    if i >= gs.len() {
        i
    } else if zero_run_len(gs, i) == max_zero_run(gs, 0) {
        i
    } else {
        first_max_zero_start(gs, i + 1)
    }
}

proof fn lemma_zero_run_bound(gs: Seq<u16>, i: int)
    requires
        0 <= i <= gs.len(),
    ensures
        0 <= zero_run_len(gs, i) <= gs.len() - i,
    decreases gs.len() - i,
{
    if i < gs.len() && gs[i] == 0 {
        lemma_zero_run_bound(gs, i + 1);
    }
}

proof fn lemma_first_max_finds(gs: Seq<u16>, i: int)
    requires
        0 <= i <= gs.len(),
        exists|j: int| i <= j < gs.len() && zero_run_len(gs, j) == max_zero_run(gs, 0),
    ensures
        i <= first_max_zero_start(gs, i) < gs.len(),
        zero_run_len(gs, first_max_zero_start(gs, i)) == max_zero_run(gs, 0),
    decreases gs.len() - i,
{
    if zero_run_len(gs, i) == max_zero_run(gs, 0) {
    } else {
        let j = choose|j: int| i <= j < gs.len() && zero_run_len(gs, j) == max_zero_run(gs, 0);
        assert(i + 1 <= j);
        lemma_first_max_finds(gs, i + 1);
    }
}

proof fn lemma_max_zero_run_attained(gs: Seq<u16>, i: int)
    requires
        0 <= i <= gs.len(),
    ensures
        max_zero_run(gs, i) == 0 || exists|j: int|
            i <= j < gs.len() && zero_run_len(gs, j) == max_zero_run(gs, i),
    decreases gs.len() - i,
{
    if i < gs.len() {
        lemma_max_zero_run_attained(gs, i + 1);
        if zero_run_len(gs, i) >= max_zero_run(gs, i + 1) {
            assert(zero_run_len(gs, i) == max_zero_run(gs, i));
        }
    }
}

/// Every group after the first, each preceded by a colon.
pub open spec fn spec_groups_tail(gs: Seq<u16>) -> Seq<char>
    decreases gs.len(),
{
    if gs.len() == 0 {
        Seq::empty()
    } else {
        seq![':'] + spec_hex_text(gs[0] as nat) + spec_groups_tail(gs.drop_first())
    }
}

/// A run of groups joined by colons.
pub open spec fn spec_groups_text(gs: Seq<u16>) -> Seq<char> {
    if gs.len() == 0 {
        Seq::empty()
    } else {
        spec_hex_text(gs[0] as nat) + spec_groups_tail(gs.drop_first())
    }
}

proof fn lemma_groups_tail_push(t: Seq<u16>, x: u16)
    ensures
        spec_groups_tail(t.push(x)) == spec_groups_tail(t) + seq![':'] + spec_hex_text(x as nat),
    decreases t.len(),
{
    if t.len() == 0 {
        assert(t.push(x)[0] == x);
        assert(t.push(x).drop_first() =~= Seq::<u16>::empty());
        assert(spec_groups_tail(Seq::<u16>::empty()) =~= Seq::<char>::empty());
        assert(t =~= Seq::<u16>::empty());
        assert(spec_groups_tail(t.push(x)) =~= spec_groups_tail(t) + seq![':'] + spec_hex_text(
            x as nat,
        ));
    } else {
        assert(t.push(x)[0] == t[0]);
        assert(t.push(x).drop_first() =~= t.drop_first().push(x));
        lemma_groups_tail_push(t.drop_first(), x);
        assert(spec_groups_tail(t.push(x)) == seq![':'] + spec_hex_text(t[0] as nat)
            + spec_groups_tail(t.drop_first().push(x)));
        assert(spec_groups_tail(t.drop_first().push(x)) == spec_groups_tail(t.drop_first())
            + seq![':'] + spec_hex_text(x as nat));
        assert(spec_groups_tail(t) == seq![':'] + spec_hex_text(t[0] as nat) + spec_groups_tail(
            t.drop_first(),
        ));
        assert(spec_groups_tail(t.push(x)) =~= spec_groups_tail(t) + seq![':'] + spec_hex_text(
            x as nat,
        ));
    }
}

proof fn lemma_groups_text_push(t: Seq<u16>, x: u16)
    ensures
        spec_groups_text(t.push(x)) == if t.len() == 0 {
            spec_hex_text(x as nat)
        } else {
            spec_groups_text(t) + seq![':'] + spec_hex_text(x as nat)
        },
    decreases t.len(),
{
    if t.len() == 0 {
        assert(t.push(x)[0] == x);
        assert(t.push(x).drop_first() =~= Seq::<u16>::empty());
        assert(spec_groups_text(t.push(x)) =~= spec_hex_text(x as nat));
    } else {
        assert(t.push(x)[0] == t[0]);
        assert(t.push(x).drop_first() =~= t.drop_first().push(x));
        lemma_groups_tail_push(t.drop_first(), x);
        assert(spec_groups_text(t.push(x)) =~= spec_groups_text(t) + seq![':'] + spec_hex_text(
            x as nat,
        ));
    }
}

fn append_groups_range(out: &mut String, gs: &Vec<u16>, from: usize, to: usize)
    requires
        from <= to <= gs@.len(),
    ensures
        final(out)@ == old(out)@ + spec_groups_text(gs@.subrange(from as int, to as int)),
{
    proof {
        reveal_strlit(":");
        assert(gs@.subrange(from as int, from as int) =~= Seq::<u16>::empty());
    }
    let mut i: usize = from;
    while i < to
        invariant
            from <= i <= to,
            to <= gs@.len(),
            out@ == old(out)@ + spec_groups_text(gs@.subrange(from as int, i as int)),
        decreases to - i,
    {
        proof {
            reveal_strlit(":");
        }
        if i > from {
            out.append(":");
        }
        append_hex_u16(out, gs[i]);
        proof {
            assert(gs@.subrange(from as int, i + 1) =~= gs@.subrange(from as int, i as int).push(
                gs@[i as int],
            ));
            lemma_groups_text_push(gs@.subrange(from as int, i as int), gs@[i as int]);
            assert(out@ =~= old(out)@ + spec_groups_text(gs@.subrange(from as int, i + 1)));
        }
        i += 1;
    }
}

/// The canonical text of an IPv6 address: the IPv4-mapped block with its
/// embedded dotted quad; otherwise the eight lowercase hexadecimal
/// groups, with the leftmost longest run of two or more zero groups
/// compressed to `::`.
pub open spec fn spec_ipv6_text(ip: Ipv6Address) -> Seq<char> {
    let gs = ipv6_groups(ip);
    if ip.0 == 0 && ip.1 == 0 && ip.2 == 0 && ip.3 == 0 && ip.4 == 0 && ip.5 == 0xffff {
        seq![':', ':', 'f', 'f', 'f', 'f', ':'] + spec_ipv4_text(
            Ipv4Address(
                ((ip.6 as int) / 256) as u8,
                ((ip.6 as int) % 256) as u8,
                ((ip.7 as int) / 256) as u8,
                ((ip.7 as int) % 256) as u8,
            ),
        )
    } else {
        let m = max_zero_run(gs, 0);
        let st = first_max_zero_start(gs, 0);
        if m > 1 {
            spec_groups_text(gs.take(st)) + seq![':', ':'] + spec_groups_text(gs.skip(st + m))
        } else {
            spec_groups_text(gs)
        }
    }
}

fn zero_run_len_at(gs: &Vec<u16>, i: usize) -> (r: usize)
    requires
        i <= gs@.len(),
    ensures
        r as int == zero_run_len(gs@, i as int),
        r <= gs@.len() - i,
    decreases gs@.len() - i,
{
    if i == gs.len() {
        0
    } else if gs[i] != 0 {
        0
    } else {
        1 + zero_run_len_at(gs, i + 1)
    }
}

fn max_zero_run_at(gs: &Vec<u16>, i: usize) -> (r: usize)
    requires
        i <= gs@.len(),
    ensures
        r as int == max_zero_run(gs@, i as int),
        r <= gs@.len(),
    decreases gs@.len() - i,
{
    if i == gs.len() {
        0
    } else {
        let a = zero_run_len_at(gs, i);
        let b = max_zero_run_at(gs, i + 1);
        if a >= b {
            a
        } else {
            b
        }
    }
}

fn first_max_zero_start_at(gs: &Vec<u16>, i: usize, m: usize) -> (r: usize)
    requires
        i <= gs@.len(),
        m as int == max_zero_run(gs@, 0),
    ensures
        r as int == first_max_zero_start(gs@, i as int),
        i <= r <= gs@.len(),
    decreases gs@.len() - i,
{
    if i == gs.len() {
        i
    } else if zero_run_len_at(gs, i) == m {
        i
    } else {
        first_max_zero_start_at(gs, i + 1, m)
    }
}

/// Appends the canonical text of an IPv6 address to `out`.
pub fn append_ipv6(out: &mut String, ip: &Ipv6Address)
    ensures
        final(out)@ == old(out)@ + spec_ipv6_text(*ip),
{
    let mut gs: Vec<u16> = Vec::new();
    gs.push(ip.0);
    gs.push(ip.1);
    gs.push(ip.2);
    gs.push(ip.3);
    gs.push(ip.4);
    gs.push(ip.5);
    gs.push(ip.6);
    gs.push(ip.7);
    proof {
        assert(gs@ =~= ipv6_groups(*ip));
    }
    if ip.0 == 0 && ip.1 == 0 && ip.2 == 0 && ip.3 == 0 && ip.4 == 0 && ip.5 == 0xffff {
        proof {
            reveal_strlit("::ffff:");
        }
        out.append("::ffff:");
        let quad = Ipv4Address(
            (ip.6 / 256) as u8,
            (ip.6 % 256) as u8,
            (ip.7 / 256) as u8,
            (ip.7 % 256) as u8,
        );
        append_ipv4(out, &quad);
        proof {
            assert(final(out)@ =~= old(out)@ + spec_ipv6_text(*ip));
        }
    } else {
        let m = max_zero_run_at(&gs, 0);
        if m > 1 {
            proof {
                lemma_max_zero_run_attained(gs@, 0);
                lemma_first_max_finds(gs@, 0);
                lemma_zero_run_bound(gs@, first_max_zero_start(gs@, 0));
            }
            let st = first_max_zero_start_at(&gs, 0, m);
            append_groups_range(out, &gs, 0, st);
            proof {
                reveal_strlit("::");
            }
            out.append("::");
            append_groups_range(out, &gs, st + m, 8);
            proof {
                assert(gs@.subrange(0, st as int) =~= gs@.take(st as int));
                assert(gs@.subrange(st + m, 8) =~= gs@.skip(st + m));
                assert(final(out)@ =~= old(out)@ + spec_ipv6_text(*ip));
            }
        } else {
            append_groups_range(out, &gs, 0, 8);
            proof {
                assert(gs@.subrange(0, 8) =~= gs@);
                assert(final(out)@ =~= old(out)@ + spec_ipv6_text(*ip));
            }
        }
    }
}

/// The text of an address of either family.
pub open spec fn spec_ip_text(ip: IpAddress) -> Seq<char> {
    match ip {
        IpAddress::V4(a) => spec_ipv4_text(a),
        IpAddress::V6(b) => spec_ipv6_text(b),
    }
}

/// Appends the text of an address of either family to `out`.
pub fn append_ip(out: &mut String, ip: &IpAddress)
    ensures
        final(out)@ == old(out)@ + spec_ip_text(*ip),
{
    match ip {
        IpAddress::V4(a) => append_ipv4(out, a),
        IpAddress::V6(b) => append_ipv6(out, b),
    }
}

/// Reads an address of either family.
pub fn parse_ip(s: &str) -> (r: Option<IpAddress>)
    ensures
        r == spec_parse_ip(s@),
{
    match parse_ipv4(s) {
        Some(v4) => Some(IpAddress::V4(v4)),
        None => match parse_ipv6(s) {
            Some(v6) => Some(IpAddress::V6(v6)),
            None => None,
        },
    }
}

} // verus!
