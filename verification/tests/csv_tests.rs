use csv_import::csv_reader::{
    can_decode, decode_bytes, detect_delimiter_in_lines, detection_fits, size_checked, CsvReader,
};
use csv_import::json::JsonRecord;
use csv_import::types::Delimiter;

fn pairs(rec: &JsonRecord) -> Vec<(&str, &str)> {
    rec.fields.iter().map(|(k, v)| (k.as_str(), v.as_str())).collect()
}

#[test]
fn test_decode_bytes() {
    let utf8 = "Hello, 世界".as_bytes();
    assert!(decode_bytes(utf8).is_ok());

    let utf8_bom = b"\xEF\xBB\xBFHello";
    assert_eq!(decode_bytes(utf8_bom).unwrap(), "Hello");
}

#[test]
fn decode_falls_back_to_gbk() {
    let gbk = [0xD6u8, 0xD0, 0xCE, 0xC4];
    assert_eq!(decode_bytes(&gbk).unwrap(), "中文");
}

#[test]
fn decode_replaces_what_neither_decodes() {
    assert_eq!(decode_bytes(&[0x41, 0xFF]).unwrap(), "A\u{FFFD}");
}

#[test]
fn decode_keeps_utf8_text() {
    assert_eq!(decode_bytes("名字,年龄".as_bytes()).unwrap(), "名字,年龄");
    assert_eq!(decode_bytes(b"").unwrap(), "");
    assert_eq!(decode_bytes("a\u{FEFF}b".as_bytes()).unwrap(), "a\u{FEFF}b");
    assert_eq!(decode_bytes("\u{FEFF}x".as_bytes()).unwrap(), "x");
}

fn lines(v: &[&str]) -> Vec<String> {
    v.iter().map(|s| s.to_string()).collect()
}

#[test]
fn detects_consistent_delimiter() {
    assert_eq!(detect_delimiter_in_lines(&lines(&["a;b;c", "1;2;3", "4;5;6"])), Ok(b';'));
    assert_eq!(detect_delimiter_in_lines(&lines(&["a\tb", "1\t2"])), Ok(b'\t'));
    assert_eq!(detect_delimiter_in_lines(&lines(&["a|b|c", "1|2|3"])), Ok(b'|'));
}

#[test]
fn consistent_delimiter_beats_more_frequent_one() {
    assert_eq!(detect_delimiter_in_lines(&lines(&["a,b,c,d;x", "1,2;y", "3;z"])), Ok(b';'));
    assert_eq!(detect_delimiter_in_lines(&lines(&["a,b,c;d", "1,2;3", "4;5"])), Ok(b';'));
}

#[test]
fn inconsistent_delimiters_rank_by_first_line_count() {
    assert_eq!(detect_delimiter_in_lines(&lines(&["a,b,c;d", "1", "2"])), Ok(b','));
}

#[test]
fn ties_go_to_the_earlier_candidate() {
    assert_eq!(detect_delimiter_in_lines(&lines(&["a,b;c", "1,2;3"])), Ok(b','));
}

#[test]
fn blank_lines_are_ignored() {
    assert_eq!(
        detect_delimiter_in_lines(&lines(&["  \r\n", "a;b", "\u{3000}\n", "1;2"])),
        Ok(b';')
    );
}

#[test]
fn detection_errors() {
    assert_eq!(detect_delimiter_in_lines(&lines(&[])), Err("文件为空".to_string()));
    assert_eq!(detect_delimiter_in_lines(&lines(&[" ", "\t\n"])), Err("文件为空".to_string()));
    assert_eq!(detect_delimiter_in_lines(&lines(&["abc", "a;b"])), Err("无法检测分隔符".to_string()));
}

#[test]
fn reader_reads_headers_and_rows() {
    let mut reader = CsvReader::new(Delimiter::Auto, 1000).unwrap();
    let mut it = reader.read_content(b"name,age\nalice,30\nbob,40,extra\n", b',').unwrap();
    assert_eq!(it.headers, vec!["name".to_string(), "age".to_string()]);
    assert_eq!(it.total_rows(), 2);
    let first = it.next_record().unwrap().unwrap();
    assert_eq!(pairs(&first), vec![("name", "alice"), ("age", "30")]);
    let second = it.next_record().unwrap().unwrap();
    assert_eq!(pairs(&second), vec![("name", "bob"), ("age", "40"), ("field_2", "extra")]);
    assert!(it.next_record().is_none());
    assert!(it.next_record().is_none());
}

#[test]
fn reader_decodes_gbk_and_other_delimiters() {
    let mut reader = CsvReader::new(Delimiter::Semicolon, 1000).unwrap();
    let content = [0xD6u8, 0xD0, b';', b'x', b'\n', b'1', b';', b'2', b'\n'];
    let mut it = reader.read_content(&content, b';').unwrap();
    assert_eq!(it.headers, vec!["中".to_string(), "x".to_string()]);
    let rec = it.next_record().unwrap().unwrap();
    assert_eq!(pairs(&rec), vec![("中", "1"), ("x", "2")]);
}

#[test]
fn oversized_record_is_an_error() {
    let mut reader = CsvReader::new(Delimiter::Comma, 10).unwrap();
    let mut it = reader.read_content(b"name,age\nalice,30\n", b',').unwrap();
    let r = it.next_record().unwrap();
    assert_eq!(r.unwrap_err(), "记录超过最大大小 10 bytes (实际: 27 bytes)");
    assert!(it.next_record().is_none());
}

#[test]
fn record_exactly_at_the_limit_is_accepted() {
    let mut reader = CsvReader::new(Delimiter::Comma, 27).unwrap();
    let mut it = reader.read_content(b"name,age\nalice,30\n", b',').unwrap();
    assert!(it.next_record().unwrap().is_ok());
}

#[test]
fn size_check_outcomes() {
    let rec = JsonRecord { fields: vec![("k".to_string(), "v".to_string())] };
    let ok = size_checked(rec.clone(), Ok("{\"k\":\"v\"}".to_string()), 9).unwrap();
    assert_eq!(pairs(&ok), vec![("k", "v")]);
    assert_eq!(
        size_checked(rec.clone(), Ok("{\"k\":\"v\"}".to_string()), 8).unwrap_err(),
        "记录超过最大大小 8 bytes (实际: 9 bytes)"
    );
    assert_eq!(
        size_checked(rec, Err("boom".to_string()), 100).unwrap_err(),
        "序列化 JSON 失败: boom"
    );
}

#[test]
fn header_only_file_has_no_rows() {
    let mut reader = CsvReader::new(Delimiter::Comma, 100).unwrap();
    let mut it = reader.read_content(b"a,b\n", b',').unwrap();
    assert_eq!(it.total_rows(), 0);
    assert!(it.next_record().is_none());
}

#[test]
fn ordinary_input_fits_the_arithmetic() {
    assert!(detection_fits(&lines(&["a,b", "1,2"])));
    assert!(detection_fits(&lines(&[])));
    let wide = ",".repeat(21_474_837);
    assert!(!detection_fits(&vec![wide.clone()]));
    assert!(detection_fits(&vec![wide, "a,b".to_string()]));
    assert!(can_decode(b"abc"));
    assert!(can_decode(&[0xFF, 0xFE]));
}
