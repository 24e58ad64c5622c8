use csv_import::text::{char_is_white_space, is_blank, parse_usize, push_decimal, push_zero_padded};
use csv_import::types::{Delimiter, EsConfig, ImportConfig, ImportStats, LogLevel};

#[test]
fn decimal_text() {
    let mut s = String::from("n=");
    push_decimal(&mut s, 0);
    push_decimal(&mut s, 1234567890);
    assert_eq!(s, "n=01234567890");
    let mut t = String::new();
    push_decimal(&mut t, u64::MAX);
    assert_eq!(t, u64::MAX.to_string());
}

#[test]
fn zero_padding() {
    let mut s = String::new();
    push_zero_padded(&mut s, 7, 3);
    assert_eq!(s, "007");
    let mut s = String::new();
    push_zero_padded(&mut s, 12345, 2);
    assert_eq!(s, "12345");
    let mut s = String::new();
    push_zero_padded(&mut s, 0, 0);
    assert_eq!(s, "0");
}

#[test]
fn parse_like_std() {
    for text in ["", "+", "-", "0", "+7", "-7", "12a", "00042", " 5", "5 ", "18446744073709551615",
        "18446744073709551616", "99999999999999999999999", "+0", "++1", "٣"] {
        assert_eq!(parse_usize(text), text.parse::<usize>().ok(), "{text:?}");
    }
}

#[test]
fn blank_like_trim() {
    for text in ["", " ", "\t\r\n", "\u{3000}", "\u{a0}x", "x", " a ", "\u{200b}", "\u{85}\u{2029}"] {
        assert_eq!(is_blank(text), text.trim().is_empty(), "{text:?}");
    }
}

#[test]
fn white_space_like_std() {
    for u in 0u32..0x3100 {
        if let Some(c) = char::from_u32(u) {
            assert_eq!(char_is_white_space(c), c.is_whitespace(), "{u:#x}");
        }
    }
}

#[test]
fn delimiter_bytes_and_labels() {
    assert_eq!(Delimiter::Auto.to_byte(), None);
    assert_eq!(Delimiter::Comma.to_byte(), Some(b','));
    assert_eq!(Delimiter::Semicolon.to_byte(), Some(b';'));
    assert_eq!(Delimiter::Tab.to_byte(), Some(b'\t'));
    assert_eq!(Delimiter::Pipe.to_byte(), Some(b'|'));
    assert_eq!(Delimiter::Auto.to_string(), "自动检测");
    assert_eq!(Delimiter::Comma.to_string(), "逗号 (,)");
    assert_eq!(Delimiter::Semicolon.to_string(), "分号 (;)");
    assert_eq!(Delimiter::Tab.to_string(), "制表符 (\\t)");
    assert_eq!(Delimiter::Pipe.to_string(), "竖线 (|)");
}

#[test]
fn log_level_labels() {
    assert_eq!(LogLevel::Info.to_string(), "信息");
    assert_eq!(LogLevel::Warning.to_string(), "警告");
    assert_eq!(LogLevel::Error.to_string(), "错误");
}

#[test]
fn defaults() {
    let es = EsConfig::default();
    assert_eq!(es.address, "http://192.168.1.200:9200");
    assert_eq!(es.username, None);
    assert_eq!(es.password, None);
    assert_eq!(es.index_name, "");
    assert_eq!(es.batch_size, 1000);
    let c = ImportConfig::default();
    assert!(c.files.is_empty());
    assert_eq!(c.delimiter, Delimiter::Auto);
    assert_eq!(c.max_record_size, 100 * 1024 * 1024);
    let s = ImportStats::default();
    assert_eq!((s.total_success, s.total_failed, s.total_skipped, s.duration_secs), (0, 0, 0, 0));
}

#[test]
fn decimal_text_reads_back() {
    for n in [0u64, 7, 10, 99, 100, 4096, 1_000_000_007] {
        let mut s = String::new();
        push_decimal(&mut s, n);
        assert_eq!(parse_usize(&s), Some(n as usize));
        let mut p = String::new();
        push_zero_padded(&mut p, n, 12);
        assert_eq!(parse_usize(&p), Some(n as usize));
    }
}
