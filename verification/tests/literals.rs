use netpulse_core::addr::IpAddress;

fn v6(groups: [u16; 8]) -> IpAddress {
    let mut bits: u128 = 0;
    for g in groups {
        bits = (bits << 16) | g as u128;
    }
    IpAddress::V6(bits)
}

#[test]
fn parses_dotted_decimal() {
    assert_eq!(IpAddress::parse("127.0.0.1"), Some(IpAddress::V4(0x7f00_0001)));
    assert_eq!(IpAddress::parse("0.0.0.0"), Some(IpAddress::V4(0)));
    assert_eq!(IpAddress::parse("255.255.255.255"), Some(IpAddress::V4(u32::MAX)));
    assert_eq!(IpAddress::parse("192.168.1.10"), Some(IpAddress::V4(0xc0a8_010a)));
}

#[test]
fn rejects_malformed_dotted_decimal() {
    for text in [
        "", " ", "1", "1.2.3", "1.2.3.4.5", "256.1.1.1", "1.2.3.256", "01.2.3.4", "1.2.3.04",
        "1..2.3", ".1.2.3", "1.2.3.", "1.2.3.4 ", " 1.2.3.4", "a.b.c.d", "1.2.3.4/24", "1000.1.1.1",
        "localhost", "example.com", "1.2.3.-4", "+1.2.3.4",
    ] {
        assert_eq!(IpAddress::parse(text), None, "{}", text);
    }
}

#[test]
fn parses_ipv6_forms() {
    assert_eq!(IpAddress::parse("::"), Some(IpAddress::V6(0)));
    assert_eq!(IpAddress::parse("::1"), Some(IpAddress::V6(1)));
    assert_eq!(IpAddress::parse("1::"), Some(v6([1, 0, 0, 0, 0, 0, 0, 0])));
    assert_eq!(
        IpAddress::parse("2001:db8::8a2e:370:7334"),
        Some(v6([0x2001, 0xdb8, 0, 0, 0, 0x8a2e, 0x370, 0x7334]))
    );
    assert_eq!(IpAddress::parse("1:2:3:4:5:6:7:8"), Some(v6([1, 2, 3, 4, 5, 6, 7, 8])));
    assert_eq!(IpAddress::parse("1:2:3:4:5:6:7::"), Some(v6([1, 2, 3, 4, 5, 6, 7, 0])));
    assert_eq!(IpAddress::parse("::2:3:4:5:6:7:8"), Some(v6([0, 2, 3, 4, 5, 6, 7, 8])));
    assert_eq!(IpAddress::parse("FE80::AbCd"), Some(v6([0xfe80, 0, 0, 0, 0, 0, 0, 0xabcd])));
    assert_eq!(IpAddress::parse("0001:0:0:0:0:0:0:0"), Some(v6([1, 0, 0, 0, 0, 0, 0, 0])));
    assert_eq!(
        IpAddress::parse("::ffff:192.0.2.1"),
        Some(v6([0, 0, 0, 0, 0, 0xffff, 0xc000, 0x0201]))
    );
    assert_eq!(
        IpAddress::parse("1:2:3:4:5:6:1.2.3.4"),
        Some(v6([1, 2, 3, 4, 5, 6, 0x0102, 0x0304]))
    );
    assert_eq!(
        IpAddress::parse("1:2:3:4:5::1.2.3.4"),
        Some(v6([1, 2, 3, 4, 5, 0, 0x0102, 0x0304]))
    );
    assert_eq!(IpAddress::parse("::1.2.3.4"), Some(v6([0, 0, 0, 0, 0, 0, 0x0102, 0x0304])));
    assert_eq!(
        IpAddress::parse("64:ff9b::192.0.2.33"),
        Some(v6([0x64, 0xff9b, 0, 0, 0, 0, 0xc000, 0x0221]))
    );
    assert_eq!(IpAddress::parse("0000:0000::0000"), Some(IpAddress::V6(0)));
}

#[test]
fn rejects_malformed_ipv6() {
    for text in [
        ":", ":::", "1:", ":1", "1::2::3", "1:2:3:4:5:6:7", "1:2:3:4:5:6:7:8:9", "1:2:3:4:5:6:7:8::",
        "::1:2:3:4:5:6:7:8", "12345::", "g::", "1.2.3.4::", "::1.2.3.4:5", "::1.2.3", "1:2:3:4:5:6:7:1.2.3.4",
        "1:2:3:4:5:6::1.2.3.4", "[::1]", "::1%eth0", "::1 ", "::1.02.3.4", "fe80::\u{e9}",
        "1:2:3:4:5:6:7:8:", "::ffff:256.0.0.1", "::1.1.1.1.1", "00000::", "1.2.3.0004", "::1.2.3.4.",
    ] {
        assert_eq!(IpAddress::parse(text), None, "{}", text);
    }
}

#[test]
fn writes_canonical_text() {
    assert_eq!(IpAddress::V4(0x7f00_0001).to_text(), "127.0.0.1");
    assert_eq!(IpAddress::V4(0).to_text(), "0.0.0.0");
    assert_eq!(IpAddress::V4(u32::MAX).to_text(), "255.255.255.255");
    assert_eq!(IpAddress::V6(0).to_text(), "::");
    assert_eq!(IpAddress::V6(1).to_text(), "::1");
    assert_eq!(v6([1, 0, 0, 0, 0, 0, 0, 0]).to_text(), "1::");
    assert_eq!(v6([0x2001, 0xdb8, 0, 0, 0, 0x8a2e, 0x370, 0x7334]).to_text(), "2001:db8::8a2e:370:7334");
    assert_eq!(v6([1, 0, 0, 2, 0, 0, 0, 3]).to_text(), "1:0:0:2::3");
    assert_eq!(v6([1, 0, 0, 2, 0, 0, 3, 4]).to_text(), "1::2:0:0:3:4");
    assert_eq!(v6([1, 0, 2, 3, 4, 5, 6, 7]).to_text(), "1:0:2:3:4:5:6:7");
    assert_eq!(v6([1, 2, 3, 4, 5, 6, 7, 8]).to_text(), "1:2:3:4:5:6:7:8");
    assert_eq!(v6([0, 0, 0, 0, 0, 0xffff, 0xc000, 0x0201]).to_text(), "::ffff:192.0.2.1");
    assert_eq!(v6([0, 0, 0, 0, 0, 0, 0xc000, 0x0201]).to_text(), "::c000:201");
    assert_eq!(v6([0xfe80, 0, 0, 0, 0, 0, 0, 0xabcd]).to_text(), "fe80::abcd");
}

#[test]
fn written_text_reads_back() {
    let mut seed: u64 = 0x9e37_79b9_7f4a_7c15;
    let mut next = || {
        seed ^= seed << 13;
        seed ^= seed >> 7;
        seed ^= seed << 17;
        seed
    };
    for _ in 0..2000 {
        let bits4 = next() as u32;
        let four = IpAddress::V4(bits4);
        assert_eq!(IpAddress::parse(&four.to_text()), Some(four));
        let mut groups = [0u16; 8];
        for g in groups.iter_mut() {
            let r = next();
            *g = if r % 3 == 0 { 0 } else { (r >> 8) as u16 };
        }
        let six = v6(groups);
        assert_eq!(IpAddress::parse(&six.to_text()), Some(six), "{}", six.to_text());
    }
}

#[test]
fn written_text_is_that_of_the_address_types_behind_ipnet() {
    let mut seed: u64 = 0x1234_5678_9abc_def1;
    let mut next = || {
        seed ^= seed << 13;
        seed ^= seed >> 7;
        seed ^= seed << 17;
        seed
    };
    for _ in 0..2000 {
        let bits4 = next() as u32;
        let net4 = netdev::ipnet::Ipv4Net::new(bits4.into(), 32).unwrap();
        assert_eq!(IpAddress::V4(bits4).to_text(), net4.addr().to_string());
        let mut bits6: u128 = 0;
        for _ in 0..8 {
            let r = next();
            let g = if r % 3 == 0 { 0 } else { (r >> 8) as u16 };
            bits6 = (bits6 << 16) | g as u128;
        }
        if next() % 16 == 0 {
            bits6 = 0xffff_0000_0000 | bits4 as u128;
        }
        let net6 = netdev::ipnet::Ipv6Net::new(bits6.into(), 128).unwrap();
        assert_eq!(IpAddress::V6(bits6).to_text(), net6.addr().to_string());
    }
}

/// What the address types behind `ipnet` make of a text.
fn reference(text: &str) -> Option<IpAddress> {
    let v4 = text.parse().ok().and_then(|addr| netdev::ipnet::Ipv4Net::new(addr, 32).ok());
    if let Some(net) = v4 {
        return Some(IpAddress::V4(net.addr().into()));
    }
    let v6 = text.parse().ok().and_then(|addr| netdev::ipnet::Ipv6Net::new(addr, 128).ok());
    v6.map(|net| IpAddress::V6(net.addr().into()))
}

#[test]
fn reading_agrees_with_the_address_types_behind_ipnet_on_random_text() {
    let alphabet = ['0', '1', '2', '5', '9', 'a', 'F', ':', ':', ':', '.', '.', 'g', ' ', 'f', '0'];
    let mut seed: u64 = 0x1234_5678_9abc_def1;
    let mut next = || {
        seed ^= seed << 13;
        seed ^= seed >> 7;
        seed ^= seed << 17;
        seed
    };
    let mut accepted = 0;
    for _ in 0..300_000 {
        let len = (next() % 14) as usize;
        let text: String = (0..len).map(|_| alphabet[(next() % 16) as usize]).collect();
        let expected = reference(&text);
        if expected.is_some() {
            accepted += 1;
        }
        assert_eq!(IpAddress::parse(&text), expected, "{:?}", text);
    }
    assert!(accepted > 100);
}

#[test]
fn reading_agrees_with_the_address_types_behind_ipnet_on_damaged_addresses() {
    let mut seed: u64 = 0x0dd_ba11_5eed_cafe;
    let mut next = || {
        seed ^= seed << 13;
        seed ^= seed >> 7;
        seed ^= seed << 17;
        seed
    };
    let spare = ['0', '1', ':', '.', 'a', 'G', ' ', '%', '/', '9', 'f', ':'];
    let mut accepted = 0;
    let mut refused = 0;
    for round in 0..60_000 {
        // A well-formed literal in one of several spellings.
        let mut groups = [0u16; 8];
        for g in groups.iter_mut() {
            let r = next();
            *g = match r % 4 {
                0 => 0,
                1 => (r >> 8) as u16 & 0xff,
                _ => (r >> 8) as u16,
            };
        }
        let bits4 = next() as u32;
        let dotted = format!("{}.{}.{}.{}", bits4 >> 24, (bits4 >> 16) & 255, (bits4 >> 8) & 255, bits4 & 255);
        let mut text = match round % 6 {
            0 => dotted,
            1 => v6(groups).to_text(),
            2 => groups.iter().map(|g| format!("{:x}", g)).collect::<Vec<_>>().join(":"),
            3 => groups.iter().map(|g| format!("{:04X}", g)).collect::<Vec<_>>().join(":"),
            4 => format!("{}:{}", groups[..6].iter().map(|g| format!("{:x}", g)).collect::<Vec<_>>().join(":"), dotted),
            _ => format!("{:x}::{:x}:{}", groups[0], groups[1], dotted),
        };
        // Damage it in up to two places.
        for _ in 0..(next() % 3) {
            let chars: Vec<char> = text.chars().collect();
            let at = (next() % (chars.len() as u64 + 1)) as usize;
            let c = spare[(next() % 12) as usize];
            let mut changed: Vec<char> = chars.clone();
            match next() % 3 {
                0 if at < chars.len() => changed[at] = c,
                1 if at < chars.len() => {
                    changed.remove(at);
                }
                _ => changed.insert(at, c),
            }
            text = changed.into_iter().collect();
        }
        let expected = reference(&text);
        if expected.is_some() {
            accepted += 1;
        } else {
            refused += 1;
        }
        assert_eq!(IpAddress::parse(&text), expected, "{:?}", text);
    }
    assert!(accepted > 10_000 && refused > 10_000, "{} {}", accepted, refused);
}
