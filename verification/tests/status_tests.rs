use csv_import::import::ImportNotice;
use csv_import::status::{build_import_config, check_import_request, ImportStatus, MAX_LOG_ENTRIES};
use csv_import::types::{Delimiter, LogLevel};
use std::path::PathBuf;

#[test]
fn log_keeps_newest_thousand() {
    let mut s = ImportStatus::new();
    for i in 0..1005 {
        s.add_log(LogLevel::Info, format!("line {i}"));
    }
    assert_eq!(s.logs.len(), MAX_LOG_ENTRIES);
    assert_eq!(s.logs[0].message, "line 5");
    assert_eq!(s.logs[999].message, "line 1004");
}

#[test]
fn notices_update_the_view() {
    let mut s = ImportStatus::new();
    s.reset_for_import();
    assert!(s.is_importing);
    s.handle_notice(ImportNotice::Started { total_files: 2 });
    assert_eq!(s.logs[0].message, "开始导入 2 个文件");
    s.handle_notice(ImportNotice::FileStarted { file_name: "a.csv".to_string(), estimated_rows: 10 });
    assert_eq!((s.current_file.as_str(), s.total, s.imported), ("a.csv", 10, 0));
    assert_eq!(s.logs[1].message, "开始处理文件: a.csv，预估 10 行");
    s.handle_notice(ImportNotice::Progress { current_file: "a.csv".to_string(), imported: 4, total: 10 });
    assert_eq!((s.imported, s.total, s.logs.len()), (4, 10, 2));
    s.handle_notice(ImportNotice::Log { level: LogLevel::Warning, message: "w".to_string() });
    assert_eq!((s.logs[2].level, s.logs[2].message.as_str()), (LogLevel::Warning, "w"));
    s.handle_notice(ImportNotice::FileCompleted { file_name: "a.csv".to_string(), success: 8, failed: 1, skipped: 1 });
    assert_eq!(s.logs[3].message, "文件 a.csv 完成: 成功 8, 失败 1, 跳过 1");
    s.handle_notice(ImportNotice::Completed { total_success: 8, total_failed: 1, total_skipped: 1, duration_secs: 3 });
    assert!(!s.is_importing);
    let st = s.stats.clone().unwrap();
    assert_eq!((st.total_success, st.total_failed, st.total_skipped, st.duration_secs), (8, 1, 1, 3));
    assert_eq!(s.logs[4].message, "导入完成！");
}

#[test]
fn error_notice_stops_import() {
    let mut s = ImportStatus::new();
    s.reset_for_import();
    s.handle_notice(ImportNotice::Error { message: "bad".to_string() });
    assert!(!s.is_importing);
    assert_eq!((s.logs[0].level, s.logs[0].message.as_str()), (LogLevel::Error, "bad"));
}

#[test]
fn request_checks_in_order() {
    assert_eq!(check_import_request(0, "", "x"), Err("请先选择文件".to_string()));
    assert_eq!(check_import_request(1, " \u{3000}", "x"), Err("请输入索引名称".to_string()));
    assert_eq!(check_import_request(1, "idx", "0"), Err("批次大小必须是正整数".to_string()));
    assert_eq!(check_import_request(1, "idx", "-3"), Err("批次大小必须是正整数".to_string()));
    assert_eq!(check_import_request(1, "idx", "abc"), Err("批次大小必须是正整数".to_string()));
    assert_eq!(check_import_request(1, "idx", "+500"), Ok(500));
    assert_eq!(check_import_request(3, " idx ", "1000"), Ok(1000));
}

#[test]
fn config_from_form() {
    let c = build_import_config("http://h:9200", "", "pw", "idx", 50, vec![PathBuf::from("a.csv")], Delimiter::Tab);
    assert_eq!(c.es_config.address, "http://h:9200");
    assert_eq!(c.es_config.username, None);
    assert_eq!(c.es_config.password, Some("pw".to_string()));
    assert_eq!(c.es_config.index_name, "idx");
    assert_eq!(c.es_config.batch_size, 50);
    assert_eq!(c.files, vec![PathBuf::from("a.csv")]);
    assert_eq!(c.delimiter, Delimiter::Tab);
    assert_eq!(c.max_record_size, 104857600);
}
