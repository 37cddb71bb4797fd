//! Laws of IP address literals: an address that is written out is read back
//! as the same address.

use crate::addr::IpAddress;
use crate::literal::{
    byte_at, digit_of, group_at, groups_at, groups_of, hex_char, hex_of, ip_text, ipv4_at,
    ipv4_text, ipv6_text, joined, lemma_run_end, longest_zero_run, octet_at, packed, parse_ip,
    parse_ipv6, run_end, run_value, zero_groups, zero_run,
};
use crate::text::{decimal_of, is_white_space, leading_space, trailing_space, trimmed_of};
use vstd::prelude::*;
use vstd::utf8::{encode_utf8, is_ascii_chars, is_ascii_chars_encode_utf8};

verus! {

/// The bytes of a text whose characters are all in the ASCII range.
spec fn code(text: Seq<char>) -> Seq<u8> {
    Seq::new(text.len(), |i: int| text[i] as u8)
}

/// Ten or sixteen.
spec fn radix_of(hex: bool) -> nat {
    if hex {
        16
    } else {
        10
    }
}

/// A number written in decimal or in hexadecimal, without leading zeros.
spec fn numeral(n: nat, hex: bool) -> Seq<char>
    decreases n,
{
    if n < radix_of(hex) {
        seq![hex_char(n)]
    } else if hex {
        numeral(n / 16, true).push(hex_char(n % 16))
    } else {
        numeral(n / 10, false).push(hex_char(n % 10))
    }
}

proof fn lemma_decimal_is_numeral(n: nat)
    ensures
        decimal_of(n) == numeral(n, false),
    decreases n,
{
    if n >= 10 {
        lemma_decimal_is_numeral(n / 10);
    }
}

proof fn lemma_hex_is_numeral(n: nat)
    ensures
        hex_of(n) == numeral(n, true),
    decreases n,
{
    if n >= 16 {
        lemma_hex_is_numeral(n / 16);
    }
}

proof fn lemma_digit_byte(digit: nat)
    requires
        digit < 16,
    ensures
        '\0' <= hex_char(digit) <= '\u{7f}',
        digit_of(hex_char(digit) as u8) == digit,
        digit >= 1 ==> hex_char(digit) as u8 != 48,
{
}

/// Every character of a numeral is a digit of its radix.
proof fn lemma_numeral_digits(n: nat, hex: bool)
    ensures
        numeral(n, hex).len() >= 1,
        is_ascii_chars(numeral(n, hex)),
        forall|i: int|
            0 <= i < numeral(n, hex).len() ==> digit_of(#[trigger] code(numeral(n, hex))[i])
                < radix_of(hex),
        n >= 1 ==> code(numeral(n, hex))[0] != 48,
        n < radix_of(hex) <==> numeral(n, hex).len() == 1,
    decreases n,
{
    let text = numeral(n, hex);
    let radix = radix_of(hex);
    if n < radix {
        lemma_digit_byte(n);
    } else {
        let front = numeral(n / radix, hex);
        lemma_numeral_digits(n / radix, hex);
        lemma_digit_byte(n % radix);
        assert forall|i: int| 0 <= i < text.len() implies digit_of(#[trigger] code(text)[i])
            < radix by {
            if i < front.len() {
                assert(code(text)[i] == code(front)[i]);
            }
        }
        assert(code(text)[0] == code(front)[0]);
    }
}

/// A run of digits that is followed by no digit ends there.
proof fn lemma_run_through(s: Seq<u8>, from: int, to: int, radix: nat)
    requires
        0 <= from <= to <= s.len(),
        forall|i: int| from <= i < to ==> digit_of(#[trigger] s[i]) < radix,
        to == s.len() || digit_of(s[to]) >= radix,
    ensures
        run_end(s, from, radix) == to,
    decreases to - from,
{
    if from < to {
        lemma_run_through(s, from + 1, to, radix);
    }
}

/// The digits of a numeral spell its number.
proof fn lemma_numeral_value(s: Seq<u8>, from: int, n: nat, hex: bool)
    requires
        0 <= from,
        from + numeral(n, hex).len() <= s.len(),
        s.subrange(from, from + numeral(n, hex).len()) == code(numeral(n, hex)),
    ensures
        run_value(s, from, from + numeral(n, hex).len(), radix_of(hex)) == n,
    decreases n,
{
    let text = numeral(n, hex);
    let radix = radix_of(hex);
    let to = from + text.len();
    lemma_numeral_digits(n, hex);
    assert(s[to - 1] == code(text)[text.len() - 1]) by {
        assert(s.subrange(from, to)[text.len() - 1] == s[to - 1]);
    }
    if n < radix {
        lemma_digit_byte(n);
        assert(run_value(s, from, from, radix) == 0);
        assert(run_value(s, from, from + 1, radix) == run_value(s, from, from, radix) * radix
            + digit_of(s[from]));
    } else {
        let front = numeral(n / radix, hex);
        lemma_digit_byte(n % radix);
        assert(text == front.push(hex_char(n % radix)));
        assert(s.subrange(from, from + front.len()) =~= code(front)) by {
            assert forall|i: int| 0 <= i < front.len() implies s.subrange(
                from,
                from + front.len(),
            )[i] == code(front)[i] by {
                assert(s.subrange(from, to)[i] == s[from + i]);
                assert(code(text)[i] == code(front)[i]);
            }
        }
        lemma_numeral_value(s, from, n / radix, hex);
        assert(to - 1 == from + front.len());
        assert(run_value(s, from, to, radix) == run_value(s, from, to - 1, radix) * radix
            + digit_of(s[to - 1]));
    }
}

/// Where a numeral stands in a text and no digit follows it, the number that
/// begins there is its number, and the digits are as many as the numeral
/// has.
proof fn lemma_numeral_read(s: Seq<u8>, from: int, n: nat, hex: bool)
    requires
        0 <= from,
        from + numeral(n, hex).len() <= s.len(),
        s.subrange(from, from + numeral(n, hex).len()) == code(numeral(n, hex)),
        from + numeral(n, hex).len() == s.len() || digit_of(s[from + numeral(n, hex).len()])
            >= radix_of(hex),
    ensures
        run_end(s, from, radix_of(hex)) == from + numeral(n, hex).len(),
        run_value(s, from, from + numeral(n, hex).len(), radix_of(hex)) == n,
        numeral(n, hex).len() > 1 ==> s[from] != 48,
{
    let text = numeral(n, hex);
    let to = from + text.len();
    lemma_numeral_digits(n, hex);
    assert forall|i: int| from <= i < to implies digit_of(#[trigger] s[i]) < radix_of(hex) by {
        assert(s.subrange(from, to)[i - from] == s[i]);
        assert(digit_of(code(text)[i - from]) < radix_of(hex));
    }
    lemma_run_through(s, from, to, radix_of(hex));
    lemma_numeral_value(s, from, n, hex);
    assert(s.subrange(from, to)[0] == s[from]);
}

proof fn lemma_octet_length(n: nat)
    requires
        n <= 255,
    ensures
        1 <= numeral(n, false).len() <= 3,
{
    reveal_with_fuel(numeral, 4);
}

proof fn lemma_group_length(n: nat)
    requires
        n <= 0xffff,
    ensures
        1 <= numeral(n, true).len() <= 4,
{
    reveal_with_fuel(numeral, 5);
}

/// An octet that is written in a text, followed by no digit, is read back.
proof fn lemma_octet_read(s: Seq<u8>, from: int, n: nat)
    requires
        n <= 255,
        0 <= from,
        from + decimal_of(n).len() <= s.len(),
        s.subrange(from, from + decimal_of(n).len()) == code(decimal_of(n)),
        from + decimal_of(n).len() == s.len() || digit_of(s[from + decimal_of(n).len()]) >= 10,
    ensures
        octet_at(s, from) == Some((n, from + decimal_of(n).len())),
        decimal_of(n).len() >= 1,
{
    lemma_decimal_is_numeral(n);
    lemma_octet_length(n);
    lemma_numeral_read(s, from, n, false);
}

/// A group that is written in a text, followed by no hexadecimal digit, is
/// read back.
proof fn lemma_group_read(s: Seq<u8>, from: int, n: nat)
    requires
        n <= 0xffff,
        0 <= from,
        from + hex_of(n).len() <= s.len(),
        s.subrange(from, from + hex_of(n).len()) == code(hex_of(n)),
        from + hex_of(n).len() == s.len() || digit_of(s[from + hex_of(n).len()]) >= 16,
    ensures
        group_at(s, from) == Some((n, from + hex_of(n).len())),
        hex_of(n).len() >= 1,
{
    lemma_hex_is_numeral(n);
    lemma_group_length(n);
    lemma_numeral_read(s, from, n, true);
}

/// The bytes of a part of a text stand where the part stands.
proof fn lemma_part(s: Seq<u8>, from: int, whole: Seq<char>, offset: int, part: Seq<char>)
    requires
        0 <= from,
        from + whole.len() <= s.len(),
        s.subrange(from, from + whole.len()) == code(whole),
        0 <= offset,
        offset + part.len() <= whole.len(),
        whole.subrange(offset, offset + part.len()) == part,
    ensures
        s.subrange(from + offset, from + offset + part.len()) == code(part),
{
    assert forall|i: int| 0 <= i < part.len() implies s.subrange(
        from + offset,
        from + offset + part.len(),
    )[i] == code(part)[i] by {
        assert(s.subrange(from, from + whole.len())[offset + i] == s[from + offset + i]);
        assert(whole.subrange(offset, offset + part.len())[i] == whole[offset + i]);
    }
    assert(s.subrange(from + offset, from + offset + part.len()) =~= code(part));
}

/// The byte of a character of a text stands where the character stands.
proof fn lemma_byte(s: Seq<u8>, from: int, whole: Seq<char>, offset: int)
    requires
        0 <= from,
        from + whole.len() <= s.len(),
        s.subrange(from, from + whole.len()) == code(whole),
        0 <= offset < whole.len(),
    ensures
        s[from + offset] == whole[offset] as u8,
{
    assert(s.subrange(from, from + whole.len())[offset] == s[from + offset]);
}

proof fn lemma_decimal_ascii(n: nat)
    ensures
        is_ascii_chars(decimal_of(n)),
        decimal_of(n).len() >= 1,
{
    lemma_decimal_is_numeral(n);
    lemma_numeral_digits(n, false);
}

proof fn lemma_hex_ascii(n: nat)
    ensures
        is_ascii_chars(hex_of(n)),
        hex_of(n).len() >= 1,
{
    lemma_hex_is_numeral(n);
    lemma_numeral_digits(n, true);
}

proof fn lemma_ipv4_ascii(bits: u32)
    ensures
        is_ascii_chars(ipv4_text(bits)),
{
    reveal_strlit(".");
    lemma_decimal_ascii((bits / 0x100_0000) as nat);
    lemma_decimal_ascii((bits / 0x1_0000 % 0x100) as nat);
    lemma_decimal_ascii((bits / 0x100 % 0x100) as nat);
    lemma_decimal_ascii((bits % 0x100) as nat);
}

/// The four octets of an address.
spec fn octets(bits: u32) -> (nat, nat, nat, nat) {
    (
        (bits / 0x100_0000) as nat,
        (bits / 0x1_0000 % 0x100) as nat,
        (bits / 0x100 % 0x100) as nat,
        (bits % 0x100) as nat,
    )
}

/// Where the octets stand in the dotted-decimal text of an address.
spec fn octet_starts(bits: u32) -> (int, int, int, int) {
    let (a, b, c, d) = octets(bits);
    let at_b = decimal_of(a).len() as int + 1;
    let at_c = at_b + decimal_of(b).len() + 1;
    let at_d = at_c + decimal_of(c).len() + 1;
    (at_b, at_c, at_d, at_d + decimal_of(d).len())
}

proof fn lemma_ipv4_layout(bits: u32)
    ensures
        ({
            let whole = ipv4_text(bits);
            let (a, b, c, d) = octets(bits);
            let (at_b, at_c, at_d, end) = octet_starts(bits);
            &&& whole.len() == end
            &&& 1 <= at_b - 1 < at_b < at_c - 1 < at_c < at_d - 1 < at_d < end
            &&& whole.subrange(0, at_b - 1) == decimal_of(a)
            &&& whole.subrange(at_b, at_c - 1) == decimal_of(b)
            &&& whole.subrange(at_c, at_d - 1) == decimal_of(c)
            &&& whole.subrange(at_d, end) == decimal_of(d)
            &&& whole[at_b - 1] == '.'
            &&& whole[at_c - 1] == '.'
            &&& whole[at_d - 1] == '.'
        }),
{
    reveal_strlit(".");
    let whole = ipv4_text(bits);
    let (a, b, c, d) = octets(bits);
    let (at_b, at_c, at_d, end) = octet_starts(bits);
    lemma_decimal_ascii(a);
    lemma_decimal_ascii(b);
    lemma_decimal_ascii(c);
    lemma_decimal_ascii(d);
    assert(whole.len() == end);
    assert(whole.subrange(0, at_b - 1) =~= decimal_of(a));
    assert(whole.subrange(at_b, at_c - 1) =~= decimal_of(b));
    assert(whole.subrange(at_c, at_d - 1) =~= decimal_of(c));
    assert(whole.subrange(at_d, end) =~= decimal_of(d));
}

/// The octet that stands at `offset` in the dotted-decimal text of an
/// address, before a dot or at the end of the text, is read back.
proof fn lemma_ipv4_octet(s: Seq<u8>, from: int, bits: u32, offset: int, n: nat)
    requires
        n <= 255,
        0 <= from,
        from + ipv4_text(bits).len() == s.len(),
        s.subrange(from, s.len() as int) == code(ipv4_text(bits)),
        0 <= offset,
        offset + decimal_of(n).len() <= ipv4_text(bits).len(),
        ipv4_text(bits).subrange(offset, offset + decimal_of(n).len()) == decimal_of(n),
        offset + decimal_of(n).len() == ipv4_text(bits).len() || ipv4_text(bits)[offset
            + decimal_of(n).len()] == '.',
    ensures
        octet_at(s, from + offset) == Some((n, from + offset + decimal_of(n).len())),
        offset + decimal_of(n).len() < ipv4_text(bits).len() ==> byte_at(
            s,
            from + offset + decimal_of(n).len(),
            46,
        ),
{
    let whole = ipv4_text(bits);
    let end = offset + decimal_of(n).len();
    lemma_part(s, from, whole, offset, decimal_of(n));
    if end < whole.len() {
        lemma_byte(s, from, whole, end);
    }
    lemma_octet_read(s, from + offset, n);
}

proof fn lemma_octets_value(bits: u32)
    ensures
        ({
            let (a, b, c, d) = octets(bits);
            a <= 255 && b <= 255 && c <= 255 && d <= 255 && a * 0x100_0000 + b * 0x1_0000 + c
                * 0x100 + d == bits
        }),
{
    let x = bits as int;
    let q1 = x / 0x100;
    let q2 = q1 / 0x100;
    let q3 = q2 / 0x100;
    vstd::arithmetic::div_mod::lemma_div_denominator(x, 0x100, 0x100);
    vstd::arithmetic::div_mod::lemma_div_denominator(x, 0x1_0000, 0x100);
    assert(q2 == x / 0x1_0000);
    assert((x / 0x1_0000) / 0x100 == x / 0x100_0000);
    assert(q3 == x / 0x100_0000);
    assert(x == q1 * 0x100 + x % 0x100);
    assert(q1 == q2 * 0x100 + q1 % 0x100);
    assert(q2 == q3 * 0x100 + q2 % 0x100);
    assert(q3 <= 255);
}

/// A dotted-decimal address that ends a text is read back.
proof fn lemma_ipv4_read(s: Seq<u8>, from: int, bits: u32)
    requires
        0 <= from,
        from + ipv4_text(bits).len() == s.len(),
        s.subrange(from, s.len() as int) == code(ipv4_text(bits)),
    ensures
        ipv4_at(s, from) == Some((bits, s.len() as int)),
{
    let (a, b, c, d) = octets(bits);
    let (at_b, at_c, at_d, end) = octet_starts(bits);
    lemma_ipv4_layout(bits);
    lemma_octets_value(bits);
    lemma_ipv4_octet(s, from, bits, 0, a);
    lemma_ipv4_octet(s, from, bits, at_b, b);
    lemma_ipv4_octet(s, from, bits, at_c, c);
    lemma_ipv4_octet(s, from, bits, at_d, d);
    assert(octet_at(s, from) == Some((a, from + at_b - 1)));
    assert(byte_at(s, from + at_b - 1, 46));
    assert(octet_at(s, from + at_b - 1 + 1) == Some((b, from + at_c - 1)));
    assert(byte_at(s, from + at_c - 1, 46));
    assert(octet_at(s, from + at_c - 1 + 1) == Some((c, from + at_d - 1)));
    assert(byte_at(s, from + at_d - 1, 46));
    assert(octet_at(s, from + at_d - 1 + 1) == Some((d, from + end)));
}

/// The bytes of a text of ASCII characters are its characters.
proof fn lemma_ascii_bytes(text: Seq<char>)
    requires
        is_ascii_chars(text),
    ensures
        encode_utf8(text) == code(text),
{
    is_ascii_chars_encode_utf8(text);
    assert(encode_utf8(text) =~= code(text));
}

/// An IPv4 address that is written out is read back.
pub proof fn lemma_ipv4_reads_back(bits: u32)
    ensures
        parse_ip(encode_utf8(ipv4_text(bits))) == Some(IpAddress::V4(bits)),
{
    lemma_ipv4_ascii(bits);
    lemma_ascii_bytes(ipv4_text(bits));
    let s = code(ipv4_text(bits));
    assert(s.subrange(0, s.len() as int) =~= s);
    lemma_ipv4_read(s, 0, bits);
}

/// A byte of a list of groups: a hexadecimal digit or a colon.
spec fn plain(byte: u8) -> bool {
    digit_of(byte) < 16 || byte == 58
}

/// The first group of a list and the rest of it.
proof fn lemma_joined_front(groups: Seq<u16>)
    requires
        groups.len() >= 1,
    ensures
        joined(groups) == if groups.len() == 1 {
            hex_of(groups[0] as nat)
        } else {
            hex_of(groups[0] as nat) + ":"@ + joined(groups.drop_first())
        },
    decreases groups.len(),
{
    if groups.len() == 2 {
        let front = groups.drop_last();
        let middle = groups.drop_first();
        assert(front.len() == 1);
        assert(middle.len() == 1);
        assert(front[0] == groups[0]);
        assert(middle[0] == groups.last());
        assert(joined(front) == hex_of(groups[0] as nat));
        assert(joined(middle) == hex_of(groups.last() as nat));
        assert(joined(groups) == joined(front) + ":"@ + hex_of(groups.last() as nat));
    } else if groups.len() > 2 {
        let front = groups.drop_last();
        lemma_joined_front(front);
        let middle = groups.drop_first();
        assert(front[0] == groups[0]);
        assert(front.drop_first() == middle.drop_last());
        assert(middle.last() == groups.last());
        assert(joined(groups) == joined(front) + ":"@ + hex_of(groups.last() as nat));
        assert(joined(front) == hex_of(groups[0] as nat) + ":"@ + joined(front.drop_first()));
        assert(joined(middle) == joined(middle.drop_last()) + ":"@ + hex_of(middle.last() as nat));
        assert(joined(groups) =~= hex_of(groups[0] as nat) + ":"@ + joined(middle));
    }
}

/// A list of groups is written in hexadecimal digits and colons.
proof fn lemma_joined_plain(groups: Seq<u16>)
    ensures
        is_ascii_chars(joined(groups)),
        forall|i: int| 0 <= i < joined(groups).len() ==> plain(#[trigger] code(joined(groups))[i]),
        groups.len() >= 1 ==> joined(groups).len() >= 1 && digit_of(code(joined(groups))[0]) < 16,
    decreases groups.len(),
{
    reveal_strlit(":");
    let text = joined(groups);
    if groups.len() >= 1 {
        let last = hex_of(groups.last() as nat);
        lemma_hex_is_numeral(groups.last() as nat);
        lemma_numeral_digits(groups.last() as nat, true);
        if groups.len() == 1 {
            assert(groups[0] == groups.last());
        } else {
            let front = joined(groups.drop_last());
            lemma_joined_plain(groups.drop_last());
            assert forall|i: int| 0 <= i < text.len() implies plain(#[trigger] code(text)[i])
                && '\0' <= text[i] <= '\u{7f}' by {
                if i < front.len() {
                    assert(code(text)[i] == code(front)[i]);
                } else if i == front.len() {
                    assert(text[i] == ':');
                } else {
                    assert(code(text)[i] == code(last)[i - front.len() - 1]);
                    assert(digit_of(code(last)[i - front.len() - 1]) < 16);
                }
            }
            assert(code(text)[0] == code(front)[0]);
        }
    }
}

/// Without a dot there is no dotted-decimal address.
proof fn lemma_no_dot(s: Seq<u8>, from: int)
    requires
        0 <= from <= s.len(),
        forall|i: int| from <= i < s.len() ==> #[trigger] s[i] != 46,
    ensures
        ipv4_at(s, from) is None,
{
    lemma_run_end(s, from, 10);
}

/// Where no group begins, no groups are read.
proof fn lemma_groups_none(s: Seq<u8>, from: int, limit: nat)
    requires
        0 <= from <= s.len(),
        from == s.len() || digit_of(s[from]) >= 16,
    ensures
        groups_at(s, from, 0, limit) == (Seq::<u16>::empty(), from, false),
{
    lemma_run_end(s, from, 10);
    lemma_run_end(s, from, 16);
}

/// What ends the reading of groups at `at`: the end of the text, or a
/// double colon.
spec fn stops(s: Seq<u8>, at: int) -> bool {
    at == s.len() || (at + 1 < s.len() && s[at] == 58 && s[at + 1] == 58)
}

/// A list of groups that is written in a text without dots, after a colon if
/// groups were read before, is read back up to where the reading stops.
proof fn lemma_groups_read(s: Seq<u8>, from: int, groups: Seq<u16>, index: nat, limit: nat)
    requires
        groups.len() >= 1,
        index + groups.len() <= limit <= 8,
        0 <= from,
        index > 0 ==> from < s.len() && s[from] == 58,
        ({
            let start = if index > 0 {
                from + 1
            } else {
                from
            };
            &&& start + joined(groups).len() <= s.len()
            &&& s.subrange(start, start + joined(groups).len()) == code(joined(groups))
            &&& stops(s, start + joined(groups).len())
        }),
        forall|i: int| from <= i < s.len() ==> #[trigger] s[i] != 46,
    ensures
        groups_at(s, from, index, limit) == (
            groups,
            (if index > 0 {
                from + 1
            } else {
                from
            }) + joined(groups).len(),
            false,
        ),
    decreases groups.len(),
{
    reveal_strlit(":");
    let start = if index > 0 {
        from + 1
    } else {
        from
    };
    let text = joined(groups);
    let end = start + text.len();
    let first = hex_of(groups[0] as nat);
    lemma_joined_front(groups);
    lemma_hex_ascii(groups[0] as nat);
    lemma_no_dot(s, start);
    assert(text.subrange(0, first.len() as int) =~= first);
    lemma_part(s, start, text, 0, first);
    let after = start + first.len();
    if groups.len() == 1 {
        assert(after == end);
        assert(after == s.len() || digit_of(s[after]) >= 16);
        lemma_group_read(s, start, groups[0] as nat);
        // Nothing more is read behind the group.
        if after < s.len() {
            lemma_run_end(s, after + 1, 10);
            lemma_run_end(s, after + 1, 16);
            assert(s[after + 1] == 58);
            assert(ipv4_at(s, after + 1) is None);
            assert(group_at(s, after + 1) is None);
        }
        assert(groups_at(s, after, index + 1, limit) == (Seq::<u16>::empty(), after, false));
        assert(seq![groups[0]] + Seq::<u16>::empty() =~= groups);
    } else {
        let rest = groups.drop_first();
        assert(text[first.len() as int] == ':');
        lemma_byte(s, start, text, first.len() as int);
        lemma_group_read(s, start, groups[0] as nat);
        assert(text.subrange(first.len() as int + 1, text.len() as int) =~= joined(rest));
        lemma_part(s, start, text, first.len() as int + 1, joined(rest));
        lemma_groups_read(s, after, rest, index + 1, limit);
        assert(seq![groups[0]] + rest =~= groups);
    }
}

/// Sixteen bits for each of `count` groups.
spec fn span(count: nat) -> nat
    decreases count,
{
    if count == 0 {
        1
    } else {
        span((count - 1) as nat) * 0x1_0000
    }
}

/// What is left of `bits` above `count` groups.
spec fn above(bits: u128, count: nat) -> nat
    decreases count,
{
    if count == 0 {
        bits as nat
    } else {
        above(bits / 0x1_0000, (count - 1) as nat)
    }
}

proof fn lemma_packed_groups(bits: u128, count: nat)
    ensures
        groups_of(bits, count).len() == count,
        packed(groups_of(bits, count)) + above(bits, count) * span(count) == bits,
    decreases count,
{
    if count > 0 {
        let low = (bits % 0x1_0000) as u16;
        let high = bits / 0x1_0000;
        let groups = groups_of(bits, count);
        lemma_packed_groups(high, (count - 1) as nat);
        assert(groups == groups_of(high, (count - 1) as nat).push(low));
        assert(groups.drop_last() == groups_of(high, (count - 1) as nat));
        assert(groups.last() == low);
        let x = above(high, (count - 1) as nat);
        let y = span((count - 1) as nat);
        assert(above(bits, count) == x);
        assert(span(count) == y * 0x1_0000);
        assert((x * y) * 0x1_0000 == x * (y * 0x1_0000)) by (nonlinear_arith);
        assert(packed(groups) == packed(groups.drop_last()) * 0x1_0000 + low);
        assert(bits == high * 0x1_0000 + low);
        assert((high - x * y) * 0x1_0000 == high * 0x1_0000 - (x * y) * 0x1_0000)
            by (nonlinear_arith);
        assert(packed(groups.drop_last()) == high - x * y);
        assert(packed(groups) + x * (y * 0x1_0000) == bits);
        assert(above(bits, count) * span(count) == x * (y * 0x1_0000));
    } else {
        assert(span(0) == 1);
        assert(above(bits, 0) == bits);
        assert(groups_of(bits, 0).len() == 0);
        assert(packed(groups_of(bits, 0)) == 0);
        assert(above(bits, 0) * span(0) == bits) by (nonlinear_arith)
            requires
                span(0) == 1,
                above(bits, 0) == bits,
        ;
    }
}

/// The groups of an address spell the address.
proof fn lemma_groups_spell(bits: u128)
    ensures
        groups_of(bits, 8).len() == 8,
        packed(groups_of(bits, 8)) == bits,
{
    lemma_packed_groups(bits, 8);
    reveal_with_fuel(above, 9);
    reveal_with_fuel(span, 9);
    assert(above(bits, 8) == 0);
}

/// The run of zero groups that begins at `from` holds zero groups only and
/// ends within the list.
proof fn lemma_zero_run(groups: Seq<u16>, from: int)
    requires
        0 <= from <= groups.len(),
    ensures
        0 <= zero_run(groups, from),
        from + zero_run(groups, from) <= groups.len(),
        forall|i: int| from <= i < from + zero_run(groups, from) ==> #[trigger] groups[i] == 0,
    decreases groups.len() - from,
{
    if from < groups.len() && groups[from] == 0 {
        lemma_zero_run(groups, from + 1);
    }
}

/// The longest run of zero groups is a run of zero groups within the list.
proof fn lemma_longest_zero_run(groups: Seq<u16>, from: int)
    requires
        0 <= from <= groups.len(),
    ensures
        ({
            let (start, len) = longest_zero_run(groups, from);
            &&& 0 <= len
            &&& from <= start
            &&& start + len <= groups.len()
            &&& forall|i: int| start <= i < start + len ==> #[trigger] groups[i] == 0
        }),
    decreases groups.len() - from,
{
    if from < groups.len() {
        lemma_zero_run(groups, from);
        lemma_longest_zero_run(groups, from + 1);
    }
}

/// Where a text begins with a colon, no dotted-decimal address begins.
proof fn lemma_colon_first(s: Seq<u8>, from: int)
    requires
        0 <= from <= s.len(),
        from == s.len() || digit_of(s[from]) >= 10,
    ensures
        ipv4_at(s, from) is None,
{
    lemma_run_end(s, from, 10);
}

/// The bytes of the text of an IPv4-mapped address: a double colon, the
/// group ffff, a colon, and the dotted-decimal tail.
proof fn lemma_mapped_text(low: u32)
    ensures
        ({
            let text = "::ffff:"@ + ipv4_text(low);
            let s = code(text);
            &&& is_ascii_chars(text)
            &&& s.len() == 7 + ipv4_text(low).len()
            &&& s[0] == 58
            &&& s[1] == 58
            &&& s.subrange(2, 6) == code(hex_of(0xffff))
            &&& s[6] == 58
            &&& s.subrange(7, s.len() as int) == code(ipv4_text(low))
        }),
{
    reveal_strlit("::ffff:");
    let tail_text = ipv4_text(low);
    let text = "::ffff:"@ + tail_text;
    let s = code(text);
    lemma_ipv4_ascii(low);
    assert forall|i: int| 0 <= i < text.len() implies '\0' <= #[trigger] text[i] <= '\u{7f}' by {
        if i >= 7 {
            assert(text[i] == tail_text[i - 7]);
        }
    }
    reveal_with_fuel(hex_of, 5);
    assert(hex_of(0xffff) =~= seq!['f', 'f', 'f', 'f']);
    assert(s.subrange(2, 6) =~= code(hex_of(0xffff)));
    assert(s.subrange(7, s.len() as int) =~= code(tail_text));
}

/// The groups behind the double colon of an IPv4-mapped address are read
/// back: the group ffff and the two groups of the dotted-decimal tail.
proof fn lemma_mapped_tail(s: Seq<u8>, low: u32)
    requires
        s.len() == 7 + ipv4_text(low).len(),
        s.subrange(2, 6) == code(hex_of(0xffff)),
        s[6] == 58,
        s.subrange(7, s.len() as int) == code(ipv4_text(low)),
    ensures
        groups_at(s, 2, 0, 7) == (
            seq![0xffffu16, (low / 0x1_0000) as u16, (low % 0x1_0000) as u16],
            s.len() as int,
            true,
        ),
{
    lemma_hex_ascii(0xffff);
    lemma_group_length(0xffff);
    lemma_hex_is_numeral(0xffff);
    assert(hex_of(0xffff).len() == 4) by {
        reveal_with_fuel(hex_of, 5);
    }
    lemma_group_read(s, 2, 0xffff);
    assert(s.subrange(2, 6)[0] == s[2]);
    lemma_numeral_digits(0xffff, true);
    assert(digit_of(s[2]) >= 10) by {
        reveal_with_fuel(hex_of, 5);
        assert(hex_of(0xffff)[0] == 'f');
    }
    lemma_colon_first(s, 2);
    lemma_ipv4_read(s, 7, low);
    let high_group = (low / 0x1_0000) as u16;
    let low_group = (low % 0x1_0000) as u16;
    assert(groups_at(s, 6, 1, 7) == (seq![high_group, low_group], s.len() as int, true));
    assert(seq![0xffffu16] + seq![high_group, low_group] =~= seq![
        0xffffu16,
        high_group,
        low_group,
    ]);
}

/// What five zero groups, the group ffff and two more groups spell.
proof fn lemma_mapped_packed(high_group: u16, low_group: u16)
    ensures
        packed(
            Seq::<u16>::empty() + zero_groups(5) + seq![0xffffu16, high_group, low_group],
        ) == 0xffff * 0x1_0000_0000 + high_group * 0x1_0000 + low_group,
{
    let all = Seq::<u16>::empty() + zero_groups(5) + seq![0xffffu16, high_group, low_group];
    let a7 = all.drop_last();
    let a6 = a7.drop_last();
    let a5 = a6.drop_last();
    let a4 = a5.drop_last();
    let a3 = a4.drop_last();
    let a2 = a3.drop_last();
    let a1 = a2.drop_last();
    let a0 = a1.drop_last();
    assert(all.len() == 8);
    assert(all.last() == low_group);
    assert(a7.last() == high_group);
    assert(a6.last() == 0xffff);
    assert(a5.last() == 0);
    assert(a4.last() == 0);
    assert(a3.last() == 0);
    assert(a2.last() == 0);
    assert(a1.last() == 0);
    assert(a0.len() == 0);
    assert(packed(a0) == 0);
    assert(packed(a1) == 0);
    assert(packed(a2) == 0);
    assert(packed(a3) == 0);
    assert(packed(a4) == 0);
    assert(packed(a5) == 0);
    assert(packed(a6) == 0xffff);
    assert(packed(a7) == 0xffff * 0x1_0000 + high_group);
}

/// The value of an IPv4-mapped address from its groups.
proof fn lemma_mapped_value(bits: u128)
    requires
        bits / 0x1_0000_0000 == 0xffff,
    ensures
        ({
            let low = (bits % 0x1_0000_0000) as u32;
            0xffff * 0x1_0000_0000 + ((low / 0x1_0000) as u16) * 0x1_0000 + ((low % 0x1_0000) as u16)
                == bits
        }),
{
}

/// The text of an IPv4-mapped address spells the address.
proof fn lemma_mapped_read(s: Seq<u8>, bits: u128)
    requires
        bits / 0x1_0000_0000 == 0xffff,
        groups_at(s, 0, 0, 8) == (Seq::<u16>::empty(), 0int, false),
        byte_at(s, 0, 58),
        byte_at(s, 1, 58),
        ({
            let low = (bits % 0x1_0000_0000) as u32;
            groups_at(s, 2, 0, 7) == (
                seq![0xffffu16, (low / 0x1_0000) as u16, (low % 0x1_0000) as u16],
                s.len() as int,
                true,
            )
        }),
    ensures
        parse_ipv6(s) == Some(bits),
{
    let low = (bits % 0x1_0000_0000) as u32;
    let high_group = (low / 0x1_0000) as u16;
    let low_group = (low % 0x1_0000) as u16;
    let tail = seq![0xffffu16, high_group, low_group];
    lemma_mapped_packed(high_group, low_group);
    lemma_mapped_value(bits);
    assert(zero_groups(8 - 0 - tail.len()) == zero_groups(5));
    assert(packed(Seq::<u16>::empty() + zero_groups(8 - 0 - tail.len()) + tail) == bits);
}

/// An IPv4-mapped address that is written out is read back.
proof fn lemma_mapped_reads_back(bits: u128)
    requires
        bits / 0x1_0000_0000 == 0xffff,
    ensures
        is_ascii_chars(ipv6_text(bits)),
        parse_ip(code(ipv6_text(bits))) == Some(IpAddress::V6(bits)),
{
    let low = (bits % 0x1_0000_0000) as u32;
    let s = code(ipv6_text(bits));
    assert(ipv6_text(bits) == "::ffff:"@ + ipv4_text(low));
    lemma_mapped_text(low);
    lemma_colon_first(s, 0);
    lemma_groups_none(s, 0, 8);
    lemma_mapped_tail(s, low);
    lemma_mapped_read(s, bits);
}

/// Two lists of groups around a double colon are written in hexadecimal
/// digits and colons.
proof fn lemma_gap_plain(head: Seq<u16>, tail: Seq<u16>)
    ensures
        ({
            let text = joined(head) + "::"@ + joined(tail);
            let h = joined(head).len() as int;
            &&& is_ascii_chars(text)
            &&& text.len() == h + 2 + joined(tail).len()
            &&& forall|i: int| 0 <= i < text.len() ==> #[trigger] code(text)[i] != 46
            &&& code(text)[h] == 58
            &&& code(text)[h + 1] == 58
            &&& code(text).subrange(0, h) == code(joined(head))
            &&& code(text).subrange(h + 2, text.len() as int) == code(joined(tail))
        }),
{
    reveal_strlit("::");
    let head_text = joined(head);
    let tail_text = joined(tail);
    let text = head_text + "::"@ + tail_text;
    let s = code(text);
    let h = head_text.len() as int;
    lemma_joined_plain(head);
    lemma_joined_plain(tail);
    assert forall|i: int| 0 <= i < text.len() implies '\0' <= #[trigger] text[i] <= '\u{7f}' by {
        if i >= h + 2 {
            assert(text[i] == tail_text[i - h - 2]);
        }
    }
    assert forall|i: int| 0 <= i < text.len() implies #[trigger] s[i] != 46 by {
        if i < h {
            assert(plain(code(head_text)[i]));
        } else if i >= h + 2 {
            assert(text[i] == tail_text[i - h - 2]);
            assert(plain(code(tail_text)[i - h - 2]));
        }
    }
    assert(s.subrange(0, h) =~= code(head_text));
    assert(s.subrange(h + 2, text.len() as int) =~= code(tail_text));
}

/// The groups before a double colon are read back.
proof fn lemma_head_read(s: Seq<u8>, head: Seq<u16>)
    requires
        head.len() <= 6,
        joined(head).len() + 2 <= s.len(),
        s.subrange(0, joined(head).len() as int) == code(joined(head)),
        s[joined(head).len() as int] == 58,
        s[joined(head).len() as int + 1] == 58,
        forall|i: int| 0 <= i < s.len() ==> #[trigger] s[i] != 46,
    ensures
        groups_at(s, 0, 0, 8) == (head, joined(head).len() as int, false),
{
    if head.len() == 0 {
        assert(head =~= Seq::<u16>::empty());
        lemma_groups_none(s, 0, 8);
    } else {
        lemma_groups_read(s, 0, head, 0, 8);
    }
}

/// The groups behind a double colon, which end the text, are read back.
proof fn lemma_tail_read(s: Seq<u8>, from: int, tail: Seq<u16>, limit: nat)
    requires
        tail.len() <= limit <= 8,
        0 <= from,
        from + joined(tail).len() == s.len(),
        s.subrange(from, s.len() as int) == code(joined(tail)),
        forall|i: int| 0 <= i < s.len() ==> #[trigger] s[i] != 46,
    ensures
        groups_at(s, from, 0, limit) == (tail, s.len() as int, false),
{
    if tail.len() == 0 {
        assert(tail =~= Seq::<u16>::empty());
        lemma_groups_none(s, from, limit);
    } else {
        lemma_groups_read(s, from, tail, 0, limit);
    }
}

/// An address that is written with a double colon is read back.
proof fn lemma_compressed_reads_back(groups: Seq<u16>, start: int, len: int)
    requires
        groups.len() == 8,
        0 <= start,
        2 <= len,
        start + len <= 8,
        forall|i: int| start <= i < start + len ==> #[trigger] groups[i] == 0,
    ensures
        ({
            let text = joined(groups.take(start)) + "::"@ + joined(groups.skip(start + len));
            &&& is_ascii_chars(text)
            &&& ipv4_at(code(text), 0) is None
            &&& parse_ipv6(code(text)) == Some(packed(groups) as u128)
        }),
{
    let head = groups.take(start);
    let tail = groups.skip(start + len);
    let text = joined(head) + "::"@ + joined(tail);
    let s = code(text);
    let h = joined(head).len() as int;
    lemma_gap_plain(head, tail);
    lemma_no_dot(s, 0);
    lemma_head_read(s, head);
    lemma_tail_read(s, h + 2, tail, (7 - start) as nat);
    assert(head + zero_groups(8 - head.len() - tail.len()) + tail =~= groups);
    lemma_packed_bound(groups);
}

/// Eight groups fit in 128 bits.
proof fn lemma_packed_bound(groups: Seq<u16>)
    requires
        groups.len() <= 8,
    ensures
        packed(groups) < span(groups.len()),
        span(8) == 0x1_0000_0000_0000_0000_0000_0000_0000_0000,
    decreases groups.len(),
{
    reveal_with_fuel(span, 9);
    if groups.len() > 0 {
        lemma_packed_bound(groups.drop_last());
        let x = packed(groups.drop_last());
        let y = span((groups.len() - 1) as nat);
        assert(x * 0x1_0000 + groups.last() < y * 0x1_0000) by (nonlinear_arith)
            requires
                x < y,
                groups.last() < 0x1_0000,
        ;
    }
}

/// An address that is written without a double colon is read back.
proof fn lemma_plain_reads_back(groups: Seq<u16>)
    requires
        groups.len() == 8,
    ensures
        is_ascii_chars(joined(groups)),
        ipv4_at(code(joined(groups)), 0) is None,
        parse_ipv6(code(joined(groups))) == Some(packed(groups) as u128),
{
    let s = code(joined(groups));
    lemma_joined_plain(groups);
    assert forall|i: int| 0 <= i < s.len() implies #[trigger] s[i] != 46 by {
        assert(plain(s[i]));
    }
    lemma_no_dot(s, 0);
    assert(s.subrange(0, s.len() as int) =~= s);
    lemma_groups_read(s, 0, groups, 0, 8);
}

/// An address that is written as groups and colons is read back.
proof fn lemma_groups_read_back(bits: u128)
    requires
        bits / 0x1_0000_0000 != 0xffff,
    ensures
        is_ascii_chars(ipv6_text(bits)),
        parse_ip(code(ipv6_text(bits))) == Some(IpAddress::V6(bits)),
{
    let groups = groups_of(bits, 8);
    let (start, len) = longest_zero_run(groups, 0);
    lemma_groups_spell(bits);
    lemma_longest_zero_run(groups, 0);
    if len > 1 {
        lemma_compressed_reads_back(groups, start, len);
    } else {
        lemma_plain_reads_back(groups);
    }
}

/// An address that is written out is read back.
pub proof fn lemma_text_reads_back(address: IpAddress)
    ensures
        parse_ip(encode_utf8(ip_text(address))) == Some(address),
{
    match address {
        IpAddress::V4(bits) => {
            lemma_ipv4_reads_back(bits);
        },
        IpAddress::V6(bits) => {
            if bits / 0x1_0000_0000 == 0xffff {
                lemma_mapped_reads_back(bits);
            } else {
                lemma_groups_read_back(bits);
            }
            lemma_ascii_bytes(ipv6_text(bits));
        },
    }
}

/// No character of the text is white space.
spec fn solid(text: Seq<char>) -> bool {
    forall|i: int| 0 <= i < text.len() ==> !is_white_space(#[trigger] text[i])
}

proof fn lemma_solid_concat(a: Seq<char>, b: Seq<char>)
    requires
        solid(a),
        solid(b),
    ensures
        solid(a + b),
{
    assert forall|i: int| 0 <= i < (a + b).len() implies !is_white_space(#[trigger] (a + b)[i]) by {
        if i >= a.len() {
            assert((a + b)[i] == b[i - a.len()]);
        }
    }
}

proof fn lemma_numeral_solid(n: nat, hex: bool)
    ensures
        solid(numeral(n, hex)),
{
    lemma_numeral_digits(n, hex);
    let text = numeral(n, hex);
    assert forall|i: int| 0 <= i < text.len() implies !is_white_space(#[trigger] text[i]) by {
        assert(digit_of(code(text)[i]) < 16);
    }
}

proof fn lemma_ipv4_solid(bits: u32)
    ensures
        solid(ipv4_text(bits)),
{
    reveal_strlit(".");
    let a = (bits / 0x100_0000) as nat;
    let b = (bits / 0x1_0000 % 0x100) as nat;
    let c = (bits / 0x100 % 0x100) as nat;
    let d = (bits % 0x100) as nat;
    lemma_decimal_is_numeral(a);
    lemma_decimal_is_numeral(b);
    lemma_decimal_is_numeral(c);
    lemma_decimal_is_numeral(d);
    lemma_numeral_solid(a, false);
    lemma_numeral_solid(b, false);
    lemma_numeral_solid(c, false);
    lemma_numeral_solid(d, false);
    assert(solid("."@));
    lemma_solid_concat(decimal_of(a), "."@);
    lemma_solid_concat(decimal_of(a) + "."@, decimal_of(b));
    lemma_solid_concat(decimal_of(a) + "."@ + decimal_of(b), "."@);
    lemma_solid_concat(decimal_of(a) + "."@ + decimal_of(b) + "."@, decimal_of(c));
    lemma_solid_concat(decimal_of(a) + "."@ + decimal_of(b) + "."@ + decimal_of(c), "."@);
    lemma_solid_concat(
        decimal_of(a) + "."@ + decimal_of(b) + "."@ + decimal_of(c) + "."@,
        decimal_of(d),
    );
}

proof fn lemma_joined_solid(groups: Seq<u16>)
    ensures
        solid(joined(groups)),
    decreases groups.len(),
{
    reveal_strlit(":");
    if groups.len() >= 1 {
        lemma_hex_is_numeral(groups.last() as nat);
        lemma_numeral_solid(groups.last() as nat, true);
        if groups.len() == 1 {
            assert(groups[0] == groups.last());
        } else {
            lemma_joined_solid(groups.drop_last());
            assert(solid(":"@));
            lemma_solid_concat(joined(groups.drop_last()), ":"@);
            lemma_solid_concat(joined(groups.drop_last()) + ":"@, hex_of(groups.last() as nat));
        }
    }
}

/// A text that neither begins nor ends with white space is its own trimmed
/// form.
proof fn lemma_solid_trimmed(text: Seq<char>)
    requires
        solid(text),
        text.len() > 0,
    ensures
        trimmed_of(text) == text,
{
    assert(!is_white_space(text[0]));
    assert(!is_white_space(text[text.len() - 1]));
    assert(leading_space(text) == 0);
    assert(trailing_space(text) == 0);
    assert(text.subrange(0, text.len() as int) =~= text);
}

/// The canonical form of an address holds no white space: trimming leaves
/// it as it is.
pub proof fn lemma_text_is_trimmed(address: IpAddress)
    ensures
        trimmed_of(ip_text(address)) == ip_text(address),
        ip_text(address).len() > 0,
{
    crate::literal::lemma_ip_text_not_empty(address);
    match address {
        IpAddress::V4(bits) => {
            lemma_ipv4_solid(bits);
        },
        IpAddress::V6(bits) => {
            if bits / 0x1_0000_0000 == 0xffff {
                reveal_strlit("::ffff:");
                lemma_ipv4_solid((bits % 0x1_0000_0000) as u32);
                assert(solid("::ffff:"@));
                lemma_solid_concat("::ffff:"@, ipv4_text((bits % 0x1_0000_0000) as u32));
            } else {
                reveal_strlit("::");
                let groups = groups_of(bits, 8);
                let (start, len) = longest_zero_run(groups, 0);
                if len > 1 {
                    lemma_joined_solid(groups.take(start));
                    lemma_joined_solid(groups.skip(start + len));
                    assert(solid("::"@));
                    lemma_solid_concat(joined(groups.take(start)), "::"@);
                    lemma_solid_concat(
                        joined(groups.take(start)) + "::"@,
                        joined(groups.skip(start + len)),
                    );
                } else {
                    lemma_joined_solid(groups);
                }
            }
        },
    }
    lemma_solid_trimmed(ip_text(address));
}

} // verus!
