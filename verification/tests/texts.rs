use netpulse_core::model::{HostScanRequest, HostScanSetting};
use netpulse_core::addr::{IpAddress, MaybeHost};
use netpulse_core::text::{decimal, trimmed, white_space};

#[test]
fn white_space_is_what_the_standard_library_calls_white_space() {
    for code in 0..=0x10_ffffu32 {
        if let Some(c) = char::from_u32(code) {
            assert_eq!(white_space(c), c.is_whitespace(), "U+{:04X}", code);
        }
    }
}

#[test]
fn trimming_is_that_of_the_standard_library() {
    let samples = [
        "",
        " ",
        "   ",
        "a",
        " a",
        "a ",
        "  a  b  ",
        "\t\n\r 1.2.3.4 \u{b}\u{c}",
        "\u{85}\u{a0}x\u{1680}\u{2000}\u{200a}",
        "\u{2028}\u{2029}\u{202f}\u{205f}\u{3000}",
        "\u{200b}zero width\u{200b}",
        "\u{feff}bom",
        "\u{180e}mongolian",
        "  día largo  ",
        " \u{3000}例\u{3000} ",
    ];
    for sample in samples {
        assert_eq!(trimmed(sample), sample.trim(), "{:?}", sample);
    }
}

#[test]
fn every_kind_of_white_space_is_trimmed_from_a_target() {
    let request = HostScanRequest {
        targets: vec![
            "\u{a0}10.0.0.1\u{3000}".to_string(),
            "\u{2003}\u{2003}".to_string(),
            "\n host.example \t".to_string(),
            "\u{200b}".to_string(),
        ],
        hop_limit: 1,
        timeout_ms: 1,
        count: 1,
        payload: None,
        ordered: true,
        concurrency: None,
    };
    let setting = HostScanSetting::from_request(request);
    assert_eq!(
        setting.targets,
        vec![
            MaybeHost { ip: Some(IpAddress::V4(0x0a00_0001)), hostname: None },
            MaybeHost { ip: None, hostname: Some("host.example".to_string()) },
            MaybeHost { ip: None, hostname: Some("\u{200b}".to_string()) },
        ]
    );
}

#[test]
fn numbers_in_decimal() {
    assert_eq!(decimal(0), "0");
    assert_eq!(decimal(7), "7");
    assert_eq!(decimal(10), "10");
    assert_eq!(decimal(255), "255");
    assert_eq!(decimal(1000), "1000");
    assert_eq!(decimal(9_007_199_254_740_993), "9007199254740993");
    assert_eq!(decimal(u64::MAX), "18446744073709551615");
    for n in (0..100_000u64).step_by(37) {
        assert_eq!(decimal(n), n.to_string());
    }
}
