//! IP address literals: reading an address from text and writing it out.
//!
//! The accepted language is that of the standard library: dotted decimal
//! without leading zeros for IPv4; for IPv6, groups of up to four hexadecimal
//! digits separated by colons, with at most one `::` for a run of zero groups
//! and an optional dotted-decimal tail for the last 32 bits. An address is
//! written in the canonical form: IPv6 in lowercase without leading zeros,
//! the first longest run of two or more zero groups as `::`, and an
//! IPv4-mapped address with a dotted-decimal tail.

use crate::addr::IpAddress;
use crate::literal_laws::lemma_text_reads_back;
use crate::text::{decimal, decimal_of};
use vstd::prelude::*;
use vstd::string::{StringExecFns, StringSliceAdditionalSpecFns};

verus! {

/// The value of a byte as a digit: 0 to 9 for `0` to `9`, 10 to 15 for `a` to
/// `f` in either case, and 16 for every other byte.
pub open spec fn digit_of(byte: u8) -> nat {
    if 48 <= byte <= 57 {
        (byte - 48) as nat
    } else if 97 <= byte <= 102 {
        (byte - 87) as nat
    } else if 65 <= byte <= 70 {
        (byte - 55) as nat
    } else {
        16
    }
}

/// Where the run of digits in `radix` that begins at `from` ends.
pub open spec fn run_end(s: Seq<u8>, from: int, radix: nat) -> int
    decreases s.len() - from,
{
    if 0 <= from < s.len() && digit_of(s[from]) < radix {
        run_end(s, from + 1, radix)
    } else {
        from
    }
}

/// The number that the digits from `from` up to `to` spell in `radix`.
pub open spec fn run_value(s: Seq<u8>, from: int, to: int, radix: nat) -> nat
    decreases to - from,
{
    if to <= from {
        0
    } else {
        run_value(s, from, to - 1, radix) * radix + digit_of(s[to - 1])
    }
}

/// The number that begins at `from`, with the position behind it: the whole
/// run of digits there, if it has at least one and at most `max_digits`
/// digits, no leading zero where that is not allowed, and a value of at most
/// `max`.
pub open spec fn number_at(
    s: Seq<u8>,
    from: int,
    radix: nat,
    max_digits: int,
    zero_prefix: bool,
    max: nat,
) -> Option<(nat, int)> {
    let end = run_end(s, from, radix);
    let digits = end - from;
    if digits < 1 || digits > max_digits {
        None
    } else if !zero_prefix && digits > 1 && s[from] == 48 {
        None
    } else if run_value(s, from, end, radix) > max {
        None
    } else {
        Some((run_value(s, from, end, radix), end))
    }
}

/// The decimal octet that begins at `from`.
pub open spec fn octet_at(s: Seq<u8>, from: int) -> Option<(nat, int)> {
    number_at(s, from, 10, 3, false, 255)
}

/// The hexadecimal group that begins at `from`.
pub open spec fn group_at(s: Seq<u8>, from: int) -> Option<(nat, int)> {
    number_at(s, from, 16, 4, true, 0xffff)
}

/// The byte at `at` is `byte`.
pub open spec fn byte_at(s: Seq<u8>, at: int, byte: u8) -> bool {
    0 <= at < s.len() && s[at] == byte
}

/// The dotted-decimal address that begins at `from`, with the position
/// behind it.
pub open spec fn ipv4_at(s: Seq<u8>, from: int) -> Option<(u32, int)> {
    match octet_at(s, from) {
        Some((a, after_a)) if byte_at(s, after_a, 46) => match octet_at(s, after_a + 1) {
            Some((b, after_b)) if byte_at(s, after_b, 46) => match octet_at(s, after_b + 1) {
                Some((c, after_c)) if byte_at(s, after_c, 46) => match octet_at(s, after_c + 1) {
                    Some((d, end)) => Some(
                        ((a * 0x100_0000 + b * 0x1_0000 + c * 0x100 + d) as u32, end),
                    ),
                    None => None,
                },
                _ => None,
            },
            _ => None,
        },
        _ => None,
    }
}

/// The groups read from `from` on, where `index` groups of at most `limit`
/// were read before, with the position behind them and whether they end in a
/// dotted-decimal tail. Every group but the first follows a colon; a
/// dotted-decimal tail fills two groups and ends the reading.
pub open spec fn groups_at(s: Seq<u8>, from: int, index: nat, limit: nat) -> (Seq<u16>, int, bool)
    decreases limit - index,
{
    if index >= limit {
        (Seq::empty(), from, false)
    } else if index > 0 && !byte_at(s, from, 58) {
        (Seq::empty(), from, false)
    } else {
        let start = if index > 0 {
            from + 1
        } else {
            from
        };
        if index + 1 < limit && ipv4_at(s, start) is Some {
            let (bits, end) = ipv4_at(s, start).unwrap();
            (seq![(bits / 0x1_0000) as u16, (bits % 0x1_0000) as u16], end, true)
        } else {
            match group_at(s, start) {
                None => (Seq::empty(), from, false),
                Some((group, end)) => {
                    let (rest, stop, tail) = groups_at(s, end, index + 1, limit);
                    (seq![group as u16] + rest, stop, tail)
                },
            }
        }
    }
}

/// The 128 bits that groups spell, the first group being the most
/// significant.
pub open spec fn packed(groups: Seq<u16>) -> nat
    decreases groups.len(),
{
    if groups.len() == 0 {
        0
    } else {
        packed(groups.drop_last()) * 0x1_0000 + groups.last() as nat
    }
}

/// `n` zero groups.
pub open spec fn zero_groups(n: int) -> Seq<u16> {
    Seq::new(n as nat, |i: int| 0u16)
}

/// The IPv6 address that `s` spells, if it spells one.
pub open spec fn parse_ipv6(s: Seq<u8>) -> Option<u128> {
    let (head, gap, head_tail) = groups_at(s, 0, 0, 8);
    if head.len() == 8 {
        if gap == s.len() {
            Some(packed(head) as u128)
        } else {
            None
        }
    } else if head_tail {
        None
    } else if !(byte_at(s, gap, 58) && byte_at(s, gap + 1, 58)) {
        None
    } else {
        let (tail, end, _) = groups_at(s, gap + 2, 0, (7 - head.len()) as nat);
        if end == s.len() {
            Some(packed(head + zero_groups(8 - head.len() - tail.len()) + tail) as u128)
        } else {
            None
        }
    }
}

/// The IP address that `s` spells, if it spells one.
pub open spec fn parse_ip(s: Seq<u8>) -> Option<IpAddress> {
    match ipv4_at(s, 0) {
        Some((bits, end)) => if end == s.len() {
            Some(IpAddress::V4(bits))
        } else {
            None
        },
        None => match parse_ipv6(s) {
            Some(bits) => Some(IpAddress::V6(bits)),
            None => None,
        },
    }
}

pub(crate) proof fn lemma_run_end(s: Seq<u8>, from: int, radix: nat)
    requires
        0 <= from <= s.len(),
    ensures
        from <= run_end(s, from, radix) <= s.len(),
    decreases s.len() - from,
{
    if from < s.len() && digit_of(s[from]) < radix {
        lemma_run_end(s, from + 1, radix);
    }
}

fn digit(byte: u8) -> (value: u32)
    ensures
        value == digit_of(byte),
{
    if 48 <= byte && byte <= 57 {
        (byte - 48) as u32
    } else if 97 <= byte && byte <= 102 {
        (byte - 87) as u32
    } else if 65 <= byte && byte <= 70 {
        (byte - 55) as u32
    } else {
        16
    }
}

fn read_octet(s: &[u8], from: usize) -> (octet: Option<(u8, usize)>)
    requires
        from <= s.len(),
    ensures
        match octet {
            Some((value, end)) => octet_at(s@, from as int) == Some((value as nat, end as int))
                && from < end <= s.len(),
            None => octet_at(s@, from as int) is None,
        },
{
    let mut at: usize = from;
    let mut value: u32 = 0;
    while at < s.len() && digit(s[at]) < 10
        invariant
            from <= at <= s.len(),
            at - from <= 3,
            run_end(s@, from as int, 10) == run_end(s@, at as int, 10),
            value == run_value(s@, from as int, at as int, 10),
            at - from == 0 ==> value == 0,
            at - from == 1 ==> value < 10,
            at - from == 2 ==> value < 100,
            at - from == 3 ==> value < 1000,
        decreases s.len() - at,
    {
        if at - from == 3 {
            proof {
                lemma_run_end(s@, at + 1, 10);
            }
            return None;
        }
        value = value * 10 + digit(s[at]);
        at += 1;
    }
    if at == from {
        None
    } else if at - from > 1 && s[from] == 48 {
        None
    } else if value > 255 {
        None
    } else {
        Some((value as u8, at))
    }
}

fn read_group(s: &[u8], from: usize) -> (group: Option<(u16, usize)>)
    requires
        from <= s.len(),
    ensures
        match group {
            Some((value, end)) => group_at(s@, from as int) == Some((value as nat, end as int))
                && from < end <= s.len(),
            None => group_at(s@, from as int) is None,
        },
{
    let mut at: usize = from;
    let mut value: u32 = 0;
    while at < s.len() && digit(s[at]) < 16
        invariant
            from <= at <= s.len(),
            at - from <= 4,
            run_end(s@, from as int, 16) == run_end(s@, at as int, 16),
            value == run_value(s@, from as int, at as int, 16),
            at - from == 0 ==> value == 0,
            at - from == 1 ==> value < 0x10,
            at - from == 2 ==> value < 0x100,
            at - from == 3 ==> value < 0x1000,
            at - from == 4 ==> value < 0x1_0000,
        decreases s.len() - at,
    {
        if at - from == 4 {
            proof {
                lemma_run_end(s@, at + 1, 16);
            }
            return None;
        }
        value = value * 16 + digit(s[at]);
        at += 1;
    }
    if at == from {
        None
    } else {
        Some((value as u16, at))
    }
}

fn is_byte(s: &[u8], at: usize, byte: u8) -> (found: bool)
    ensures
        found == byte_at(s@, at as int, byte),
{
    at < s.len() && s[at] == byte
}

fn read_ipv4(s: &[u8], from: usize) -> (address: Option<(u32, usize)>)
    requires
        from <= s.len(),
    ensures
        match address {
            Some((bits, end)) => ipv4_at(s@, from as int) == Some((bits, end as int)) && from
                < end <= s.len(),
            None => ipv4_at(s@, from as int) is None,
        },
{
    let (a, after_a) = match read_octet(s, from) {
        Some(read) => read,
        None => {
            return None;
        },
    };
    if !is_byte(s, after_a, 46) {
        return None;
    }
    let (b, after_b) = match read_octet(s, after_a + 1) {
        Some(read) => read,
        None => {
            return None;
        },
    };
    if !is_byte(s, after_b, 46) {
        return None;
    }
    let (c, after_c) = match read_octet(s, after_b + 1) {
        Some(read) => read,
        None => {
            return None;
        },
    };
    if !is_byte(s, after_c, 46) {
        return None;
    }
    let (d, end) = match read_octet(s, after_c + 1) {
        Some(read) => read,
        None => {
            return None;
        },
    };
    let bits: u32 = (a as u32) * 0x100_0000 + (b as u32) * 0x1_0000 + (c as u32) * 0x100 + (
    d as u32);
    Some((bits, end))
}

/// Groups read so far and the position behind them.
struct Groups {
    groups: Vec<u16>,
    end: usize,
    tail: bool,
}

fn read_groups(s: &[u8], from: usize, limit: usize) -> (read: Groups)
    requires
        from <= s.len(),
        limit <= 8,
    ensures
        (read.groups@, read.end as int, read.tail) == groups_at(
            s@,
            from as int,
            0,
            limit as nat,
        ),
        read.groups.len() <= limit,
        from <= read.end <= s.len(),
{
    let mut groups: Vec<u16> = Vec::new();
    let mut at: usize = from;
    let ghost whole = groups_at(s@, from as int, 0, limit as nat);
    loop
        invariant
            limit <= 8,
            groups.len() <= limit,
            from <= at <= s.len(),
            whole == groups_at(s@, from as int, 0, limit as nat),
            whole == ({
                let (rest, stop, tail) = groups_at(s@, at as int, groups.len() as nat, limit as nat);
                (groups@ + rest, stop, tail)
            }),
        decreases limit - groups.len(),
    {
        let index = groups.len();
        let ghost before = groups@;
        if index >= limit {
            assert(groups@ + Seq::<u16>::empty() == groups@);
            return Groups { groups, end: at, tail: false };
        }
        if index > 0 && !is_byte(s, at, 58) {
            assert(groups@ + Seq::<u16>::empty() == groups@);
            return Groups { groups, end: at, tail: false };
        }
        let start: usize = if index > 0 { at + 1 } else { at };
        if index + 1 < limit {
            match read_ipv4(s, start) {
                Some((bits, end)) => {
                    groups.push((bits / 0x1_0000) as u16);
                    groups.push((bits % 0x1_0000) as u16);
                    assert(groups@ == before + seq![
                        (bits / 0x1_0000) as u16,
                        (bits % 0x1_0000) as u16,
                    ]);
                    return Groups { groups, end, tail: true };
                },
                None => {},
            }
        }
        match read_group(s, start) {
            None => {
                assert(groups@ + Seq::<u16>::empty() == groups@);
                return Groups { groups, end: at, tail: false };
            },
            Some((group, end)) => {
                groups.push(group);
                proof {
                    let (rest, stop, tail) = groups_at(s@, end as int, index as nat + 1, limit as nat);
                    assert(before + (seq![group] + rest) == groups@ + rest);
                }
                at = end;
            },
        }
    }
}

fn pack(groups: &Vec<u16>) -> (bits: u128)
    requires
        groups.len() == 8,
    ensures
        bits == packed(groups@),
{
    let mut bits: u128 = 0;
    let mut i: usize = 0;
    while i < 8
        invariant
            i <= 8,
            groups.len() == 8,
            bits == packed(groups@.take(i as int)),
            i == 0 ==> bits == 0,
            i == 1 ==> bits < 0x1_0000,
            i == 2 ==> bits < 0x1_0000_0000,
            i == 3 ==> bits < 0x1_0000_0000_0000,
            i == 4 ==> bits < 0x1_0000_0000_0000_0000,
            i == 5 ==> bits < 0x1_0000_0000_0000_0000_0000,
            i == 6 ==> bits < 0x1_0000_0000_0000_0000_0000_0000,
            i == 7 ==> bits < 0x1_0000_0000_0000_0000_0000_0000_0000,
        decreases 8 - i,
    {
        proof {
            assert(groups@.take(i + 1).drop_last() == groups@.take(i as int));
        }
        bits = bits * 0x1_0000 + groups[i] as u128;
        i += 1;
    }
    assert(groups@.take(8) == groups@);
    bits
}

fn read_ipv6(s: &[u8]) -> (address: Option<u128>)
    ensures
        address == parse_ipv6(s@),
{
    let head = read_groups(s, 0, 8);
    if head.groups.len() == 8 {
        if head.end == s.len() {
            return Some(pack(&head.groups));
        } else {
            return None;
        }
    }
    if head.tail {
        return None;
    }
    if !(is_byte(s, head.end, 58) && is_byte(s, head.end + 1, 58)) {
        return None;
    }
    let tail = read_groups(s, head.end + 2, 7 - head.groups.len());
    if tail.end != s.len() {
        return None;
    }
    let mut groups = head.groups;
    let ghost first = groups@;
    let missing: usize = 8 - groups.len() - tail.groups.len();
    let mut n: usize = 0;
    while n < missing
        invariant
            n <= missing,
            groups@ == first + zero_groups(n as int),
        decreases missing - n,
    {
        groups.push(0);
        assert(groups@ == first + zero_groups(n + 1));
        n += 1;
    }
    let mut k: usize = 0;
    while k < tail.groups.len()
        invariant
            k <= tail.groups.len(),
            groups@ == first + zero_groups(missing as int) + tail.groups@.take(k as int),
        decreases tail.groups.len() - k,
    {
        groups.push(tail.groups[k]);
        assert(tail.groups@.take(k + 1) == tail.groups@.take(k as int).push(tail.groups@[k as int]));
        k += 1;
    }
    assert(tail.groups@.take(tail.groups.len() as int) == tail.groups@);
    Some(pack(&groups))
}

impl IpAddress {
    /// Reads an address from its literal: the bytes of `text` have to spell
    /// an IPv4 or an IPv6 address, and nothing else.
    pub fn parse(text: &str) -> (address: Option<IpAddress>)
        ensures
            address == parse_ip(text.spec_bytes()),
    {
        let s = text.as_bytes();
        match read_ipv4(s, 0) {
            Some((bits, end)) => if end == s.len() {
                Some(IpAddress::V4(bits))
            } else {
                None
            },
            None => match read_ipv6(s) {
                Some(bits) => Some(IpAddress::V6(bits)),
                None => None,
            },
        }
    }
}

/// An IPv4 address in dotted decimal.
pub open spec fn ipv4_text(bits: u32) -> Seq<char> {
    decimal_of((bits / 0x100_0000) as nat) + "."@ + decimal_of((bits / 0x1_0000 % 0x100) as nat)
        + "."@ + decimal_of((bits / 0x100 % 0x100) as nat) + "."@ + decimal_of(
        (bits % 0x100) as nat,
    )
}

/// The character of a hexadecimal digit, in lowercase.
pub open spec fn hex_char(digit: nat) -> char {
    if digit == 0 {
        '0'
    } else if digit == 1 {
        '1'
    } else if digit == 2 {
        '2'
    } else if digit == 3 {
        '3'
    } else if digit == 4 {
        '4'
    } else if digit == 5 {
        '5'
    } else if digit == 6 {
        '6'
    } else if digit == 7 {
        '7'
    } else if digit == 8 {
        '8'
    } else if digit == 9 {
        '9'
    } else if digit == 10 {
        'a'
    } else if digit == 11 {
        'b'
    } else if digit == 12 {
        'c'
    } else if digit == 13 {
        'd'
    } else if digit == 14 {
        'e'
    } else {
        'f'
    }
}

/// A number written in lowercase hexadecimal, without leading zeros.
pub open spec fn hex_of(n: nat) -> Seq<char>
    decreases n,
{
    if n < 16 {
        seq![hex_char(n)]
    } else {
        hex_of(n / 16).push(hex_char(n % 16))
    }
}

/// The last `count` groups of 16 bits of `bits`, the most significant first.
pub open spec fn groups_of(bits: u128, count: nat) -> Seq<u16>
    decreases count,
{
    if count == 0 {
        Seq::empty()
    } else {
        groups_of(bits / 0x1_0000, (count - 1) as nat).push((bits % 0x1_0000) as u16)
    }
}

/// Length of the run of zero groups that begins at `from`.
pub open spec fn zero_run(groups: Seq<u16>, from: int) -> int
    decreases groups.len() - from,
{
    if 0 <= from < groups.len() && groups[from] == 0 {
        1 + zero_run(groups, from + 1)
    } else {
        0
    }
}

/// Start and length of the first among the longest runs of zero groups at or
/// behind `from`; the length is zero where there is no zero group.
pub open spec fn longest_zero_run(groups: Seq<u16>, from: int) -> (int, int)
    decreases groups.len() - from,
{
    if from < 0 || from >= groups.len() {
        (from, 0)
    } else {
        let here = zero_run(groups, from);
        let (start, len) = longest_zero_run(groups, from + 1);
        if here > 0 && here >= len {
            (from, here)
        } else {
            (start, len)
        }
    }
}

/// Groups in hexadecimal, with a colon between neighbors.
pub open spec fn joined(groups: Seq<u16>) -> Seq<char>
    decreases groups.len(),
{
    if groups.len() == 0 {
        Seq::empty()
    } else if groups.len() == 1 {
        hex_of(groups[0] as nat)
    } else {
        joined(groups.drop_last()) + ":"@ + hex_of(groups.last() as nat)
    }
}

/// An IPv6 address in its canonical form.
pub open spec fn ipv6_text(bits: u128) -> Seq<char> {
    if bits / 0x1_0000_0000 == 0xffff {
        "::ffff:"@ + ipv4_text((bits % 0x1_0000_0000) as u32)
    } else {
        let groups = groups_of(bits, 8);
        let (start, len) = longest_zero_run(groups, 0);
        if len > 1 {
            joined(groups.take(start)) + "::"@ + joined(groups.skip(start + len))
        } else {
            joined(groups)
        }
    }
}

/// An address in its canonical form.
pub open spec fn ip_text(address: IpAddress) -> Seq<char> {
    match address {
        IpAddress::V4(bits) => ipv4_text(bits),
        IpAddress::V6(bits) => ipv6_text(bits),
    }
}

fn hex_digit_text(digit: u16) -> (text: &'static str)
    requires
        digit < 16,
    ensures
        text@ == seq![hex_char(digit as nat)],
{
    proof {
        reveal_strlit("0");
        reveal_strlit("1");
        reveal_strlit("2");
        reveal_strlit("3");
        reveal_strlit("4");
        reveal_strlit("5");
        reveal_strlit("6");
        reveal_strlit("7");
        reveal_strlit("8");
        reveal_strlit("9");
        reveal_strlit("a");
        reveal_strlit("b");
        reveal_strlit("c");
        reveal_strlit("d");
        reveal_strlit("e");
        reveal_strlit("f");
    }
    let text = if digit == 0 {
        "0"
    } else if digit == 1 {
        "1"
    } else if digit == 2 {
        "2"
    } else if digit == 3 {
        "3"
    } else if digit == 4 {
        "4"
    } else if digit == 5 {
        "5"
    } else if digit == 6 {
        "6"
    } else if digit == 7 {
        "7"
    } else if digit == 8 {
        "8"
    } else if digit == 9 {
        "9"
    } else if digit == 10 {
        "a"
    } else if digit == 11 {
        "b"
    } else if digit == 12 {
        "c"
    } else if digit == 13 {
        "d"
    } else if digit == 14 {
        "e"
    } else {
        "f"
    };
    assert(text@ =~= seq![hex_char(digit as nat)]);
    text
}

fn hex(n: u16) -> (text: String)
    ensures
        text@ == hex_of(n as nat),
    decreases n,
{
    if n < 16 {
        String::from_str(hex_digit_text(n))
    } else {
        let text = hex(n / 16).concat(hex_digit_text(n % 16));
        assert(text@ =~= hex_of(n as nat));
        text
    }
}

fn write_ipv4(bits: u32) -> (text: String)
    ensures
        text@ == ipv4_text(bits),
{
    let a = decimal((bits / 0x100_0000) as u64);
    let b = decimal((bits / 0x1_0000 % 0x100) as u64);
    let c = decimal((bits / 0x100 % 0x100) as u64);
    let d = decimal((bits % 0x100) as u64);
    a.concat(".").concat(b.as_str()).concat(".").concat(c.as_str()).concat(".").concat(d.as_str())
}

fn groups(bits: u128) -> (groups: Vec<u16>)
    ensures
        groups@ == groups_of(bits, 8),
        groups.len() == 8,
{
    let mut groups: Vec<u16> = Vec::new();
    let mut rest: u128 = bits;
    while groups.len() < 8
        invariant
            groups.len() <= 8,
            groups_of(bits, 8) == groups_of(rest, (8 - groups.len()) as nat) + groups@,
        decreases 8 - groups.len(),
    {
        let ghost before = groups@;
        let ghost left = (8 - groups.len()) as nat;
        groups.insert(0, (rest % 0x1_0000) as u16);
        proof {
            let low = (rest % 0x1_0000) as u16;
            assert(groups@ == seq![low] + before);
            assert(groups_of(rest, left) == groups_of(rest / 0x1_0000, (left - 1) as nat).push(low));
            assert(groups_of(rest / 0x1_0000, (left - 1) as nat).push(low) + before == groups_of(
                rest / 0x1_0000,
                (left - 1) as nat,
            ) + (seq![low] + before));
        }
        rest = rest / 0x1_0000;
    }
    assert(groups_of(rest, 0) + groups@ == groups@);
    groups
}

fn find_zero_run(groups: &Vec<u16>) -> (run: (usize, usize))
    requires
        groups.len() == 8,
    ensures
        (run.0 as int, run.1 as int) == longest_zero_run(groups@, 0),
        run.0 + run.1 <= 8,
{
    let mut at: usize = 8;
    let mut here: usize = 0;
    let mut start: usize = 8;
    let mut len: usize = 0;
    while at > 0
        invariant
            at <= 8,
            groups.len() == 8,
            here == zero_run(groups@, at as int),
            at + here <= 8,
            (start as int, len as int) == longest_zero_run(groups@, at as int),
            start + len <= 8,
            at <= start,
        decreases at,
    {
        at -= 1;
        if groups[at] == 0 {
            here += 1;
        } else {
            here = 0;
        }
        if here > 0 && here >= len {
            start = at;
            len = here;
        }
    }
    (start, len)
}

fn join(groups: &Vec<u16>, from: usize, to: usize) -> (text: String)
    requires
        from <= to <= groups.len(),
    ensures
        text@ == joined(groups@.subrange(from as int, to as int)),
{
    let mut text = String::new();
    let mut at: usize = from;
    while at < to
        invariant
            from <= at <= to <= groups.len(),
            text@ == joined(groups@.subrange(from as int, at as int)),
        decreases to - at,
    {
        let ghost before = groups@.subrange(from as int, at as int);
        let ghost after = groups@.subrange(from as int, at + 1);
        proof {
            assert(after.drop_last() == before);
            assert(after.last() == groups@[at as int]);
        }
        if at > from {
            text.append(":");
        }
        text.append(hex(groups[at]).as_str());
        proof {
            if at == from {
                assert(text@ =~= hex_of(groups@[at as int] as nat));
                assert(after[0] == groups@[at as int]);
            }
        }
        at += 1;
    }
    text
}

fn write_ipv6(bits: u128) -> (text: String)
    ensures
        text@ == ipv6_text(bits),
{
    if bits / 0x1_0000_0000 == 0xffff {
        let tail = write_ipv4((bits % 0x1_0000_0000) as u32);
        return String::from_str("::ffff:").concat(tail.as_str());
    }
    let groups = groups(bits);
    let (start, len) = find_zero_run(&groups);
    if len > 1 {
        let head = join(&groups, 0, start);
        let tail = join(&groups, start + len, 8);
        proof {
            assert(groups@.subrange(0, start as int) == groups@.take(start as int));
            assert(groups@.subrange(start + len, 8) == groups@.skip(start + len));
        }
        head.concat("::").concat(tail.as_str())
    } else {
        proof {
            assert(groups@.subrange(0, 8) == groups@);
        }
        join(&groups, 0, 8)
    }
}

proof fn lemma_joined_not_empty(groups: Seq<u16>)
    requires
        groups.len() > 0,
    ensures
        joined(groups).len() > 0,
    decreases groups.len(),
{
    assert(hex_of(groups.last() as nat).len() > 0);
    assert(hex_of(groups[0] as nat).len() > 0);
}

/// The canonical form of an address is never empty.
pub proof fn lemma_ip_text_not_empty(address: IpAddress)
    ensures
        ip_text(address).len() > 0,
{
    reveal_strlit(".");
    reveal_strlit("::");
    reveal_strlit("::ffff:");
    match address {
        IpAddress::V4(bits) => {},
        IpAddress::V6(bits) => {
            if bits / 0x1_0000_0000 != 0xffff {
                let groups = groups_of(bits, 8);
                reveal_with_fuel(groups_of, 9);
                assert(groups.len() == 8);
                lemma_joined_not_empty(groups);
            }
        },
    }
}

impl IpAddress {
    /// The address in its canonical form, which is never empty and reads
    /// back as the address.
    pub fn to_text(&self) -> (text: String)
        ensures
            text@ == ip_text(*self),
            text@.len() > 0,
            parse_ip(vstd::utf8::encode_utf8(text@)) == Some(*self),
    {
        proof {
            lemma_ip_text_not_empty(*self);
            lemma_text_reads_back(*self);
        }
        match self {
            IpAddress::V4(bits) => write_ipv4(*bits),
            IpAddress::V6(bits) => write_ipv6(*bits),
        }
    }
}

} // verus!
