use csv_import::es_client::BulkResult;
use csv_import::import::{
    batch_outcome, connection_ok_notice, connection_testing_notice, failure_notice, ImportFailure,
    ImportNotice, ImportRun,
};
use csv_import::json::JsonRecord;
use csv_import::chunk::MAX_DOCS_PER_INDEX;
use csv_import::types::{ImportConfig, LogLevel};
use std::path::PathBuf;

fn log_of(n: &ImportNotice) -> (LogLevel, String) {
    match n {
        ImportNotice::Log { level, message } => (*level, message.clone()),
        other => panic!("not a log: {other:?}"),
    }
}

fn rec(v: &str) -> JsonRecord {
    JsonRecord { fields: vec![("k".to_string(), v.to_string())] }
}

fn run_with(batch: usize, index: &str, files: usize) -> ImportRun {
    let mut c = ImportConfig::default();
    c.es_config.batch_size = batch;
    c.es_config.index_name = index.to_string();
    c.files = (0..files).map(|i| PathBuf::from(format!("f{i}.csv"))).collect();
    ImportRun::new(&c)
}

#[test]
fn failure_and_connection_notices() {
    match failure_notice(ImportFailure::ConnectionTest, "refused") {
        ImportNotice::Error { message } => assert_eq!(message, "Elasticsearch 连接测试失败: refused"),
        other => panic!("{other:?}"),
    }
    match failure_notice(ImportFailure::CreateClient, "tls") {
        ImportNotice::Error { message } => assert_eq!(message, "创建 ES 客户端失败: tls"),
        other => panic!("{other:?}"),
    }
    match failure_notice(ImportFailure::CreateReader, "y") {
        ImportNotice::Error { message } => assert_eq!(message, "创建 CSV 读取器失败: y"),
        other => panic!("{other:?}"),
    }
    match failure_notice(ImportFailure::ReadCsv, "x") {
        ImportNotice::Error { message } => assert_eq!(message, "读取 CSV 文件失败: x"),
        other => panic!("{other:?}"),
    }
    assert_eq!(log_of(&connection_testing_notice()), (LogLevel::Info, "正在测试 Elasticsearch 连接...".to_string()));
    assert_eq!(log_of(&connection_ok_notice()), (LogLevel::Info, "Elasticsearch 连接成功".to_string()));
}

#[test]
fn batch_outcome_accounting() {
    let ok = Ok(BulkResult { success: 3, failed: 2, errors: vec!["a: b".to_string()] });
    let (s, f, ns) = batch_outcome(&ok, 5);
    assert_eq!((s, f), (3, 2));
    assert_eq!(ns.len(), 1);
    assert_eq!(log_of(&ns[0]), (LogLevel::Warning, "导入错误: a: b".to_string()));
    let clean = Ok(BulkResult { success: 5, failed: 0, errors: vec!["ignored".to_string()] });
    let (s, f, ns) = batch_outcome(&clean, 5);
    assert_eq!((s, f, ns.len()), (5, 0, 0));
    let (s, f, ns) = batch_outcome(&Err("down".to_string()), 4);
    assert_eq!((s, f), (0, 4));
    assert_eq!(log_of(&ns[0]), (LogLevel::Error, "Bulk 请求失败: down".to_string()));
}

#[test]
fn estimates_and_plan() {
    let mut run = run_with(10, "idx", 2);
    match run.started() {
        ImportNotice::Started { total_files } => assert_eq!(total_files, 2),
        other => panic!("{other:?}"),
    }
    assert_eq!(log_of(&run.record_estimate("a.csv", Ok(120))), (LogLevel::Info, "文件 a.csv 估算行数: 120".to_string()));
    assert_eq!(
        log_of(&run.record_estimate("b.csv", Err("no file".to_string()))),
        (LogLevel::Warning, "估算文件 b.csv 行数失败: no file".to_string())
    );
    assert_eq!(run.estimated_rows, 120);
    let ns = run.plan_chunks();
    assert_eq!(ns.len(), 1);
    assert_eq!(log_of(&ns[0]), (LogLevel::Info, "所有文件估算总行数: 120".to_string()));
    assert_eq!(run.current_index_name(), "idx");
}

#[test]
fn large_estimate_plans_several_indices() {
    let mut run = run_with(10, "idx", 1);
    run.record_estimate("a.csv", Ok(MAX_DOCS_PER_INDEX as u64 * 2 + 1));
    let ns = run.plan_chunks();
    assert_eq!(ns.len(), 2);
    assert_eq!(log_of(&ns[1]), (LogLevel::Info, "数据将分成 3 个索引".to_string()));
    assert_eq!(run.current_index_name(), "idx_01");
}

#[test]
fn records_batch_and_flush() {
    let mut run = run_with(2, "idx", 1);
    run.plan_chunks();
    assert_eq!(log_of(&run.open_file("a.csv")), (LogLevel::Info, "开始处理文件: a.csv".to_string()));
    let ns = run.begin_file("a.csv".to_string(), 3);
    match &ns[0] {
        ImportNotice::FileStarted { file_name, estimated_rows } => {
            assert_eq!((file_name.as_str(), *estimated_rows), ("a.csv", 3))
        }
        other => panic!("{other:?}"),
    }
    assert_eq!(log_of(&ns[1]), (LogLevel::Info, "实际读取到 3 行数据".to_string()));

    let (ns, full) = run.accept_record(Ok(rec("1")));
    assert!(ns.is_empty() && !full);
    let (ns, full) = run.accept_record(Err("too big".to_string()));
    assert!(!full);
    assert_eq!(log_of(&ns[0]), (LogLevel::Warning, "跳过记录: too big".to_string()));
    match &ns[1] {
        ImportNotice::Progress { current_file, imported, total } => {
            assert_eq!((current_file.as_str(), *imported, *total), ("a.csv", 1, 3))
        }
        other => panic!("{other:?}"),
    }
    let (_, full) = run.accept_record(Ok(rec("2")));
    assert!(full);
    assert_eq!(run.batch.len(), 2);
    assert_eq!(run.imported + run.batch.len() as u64, 3);

    let ns = run.batch_imported(Ok(BulkResult { success: 2, failed: 0, errors: vec![] }), true);
    assert_eq!(ns.len(), 1);
    match &ns[0] {
        ImportNotice::Progress { imported, total, .. } => assert_eq!((*imported, *total), (3, 3)),
        other => panic!("{other:?}"),
    }
    assert!(run.batch.is_empty());
    assert_eq!((run.file_success, run.file_failed, run.file_skipped, run.imported), (2, 0, 1, 3));
    assert_eq!(run.chunks.as_ref().unwrap().rows_in_current_chunk(), 2);

    match run.finish_file() {
        ImportNotice::FileCompleted { file_name, success, failed, skipped } => {
            assert_eq!((file_name.as_str(), success, failed, skipped), ("a.csv", 2, 0, 1))
        }
        other => panic!("{other:?}"),
    }
    match run.completed(9) {
        ImportNotice::Completed { total_success, total_failed, total_skipped, duration_secs } => {
            assert_eq!((total_success, total_failed, total_skipped, duration_secs), (2, 0, 1, 9))
        }
        other => panic!("{other:?}"),
    }
}

#[test]
fn failed_request_counts_whole_batch_failed_and_leftover_does_not_advance() {
    let mut run = run_with(100, "idx", 1);
    run.plan_chunks();
    run.begin_file("b.csv".to_string(), 2);
    run.accept_record(Ok(rec("1")));
    run.accept_record(Ok(rec("2")));
    let ns = run.batch_imported(Err("timeout".to_string()), false);
    assert_eq!(ns.len(), 2);
    assert_eq!(log_of(&ns[0]), (LogLevel::Error, "Bulk 请求失败: timeout".to_string()));
    assert_eq!((run.file_success, run.file_failed, run.imported), (0, 2, 2));
    assert_eq!(run.chunks.as_ref().unwrap().rows_in_current_chunk(), 0);
}

#[test]
fn switching_index_is_logged() {
    let mut run = run_with(1, "idx", 1);
    run.record_estimate("a", Ok(MAX_DOCS_PER_INDEX as u64 + 1));
    run.plan_chunks();
    run.begin_file("a".to_string(), 1);
    let mut m = run.chunks.take().unwrap();
    m.add_rows(MAX_DOCS_PER_INDEX as u64 - 1);
    run.chunks = Some(m);
    run.accept_record(Ok(rec("x")));
    let ns = run.batch_imported(Ok(BulkResult { success: 1, failed: 0, errors: vec![] }), true);
    assert_eq!(ns.len(), 2);
    assert_eq!(log_of(&ns[1]), (LogLevel::Info, "切换到新索引: idx_02".to_string()));
    assert_eq!(run.current_index_name(), "idx_02");
}

#[test]
fn overflow_guards() {
    let mut run = run_with(1, "idx", 1);
    assert!(run.can_add_estimate(&Ok(u64::MAX)));
    run.record_estimate("a", Ok(u64::MAX));
    assert!(!run.can_add_estimate(&Ok(1)));
    assert!(run.can_add_estimate(&Err("e".to_string())));
    assert!(run.can_finish_file());
    run.plan_chunks();
    assert!(run.can_count_batch(&Ok(BulkResult { success: 1, failed: 1, errors: vec![] }), true));
    assert!(run.can_count_batch(&Err("e".to_string()), true));
    assert!(run.can_skip());
}

#[test]
fn batch_is_sent_when_filled_or_left_at_end_of_file() {
    let mut run = run_with(2, "idx", 1);
    run.plan_chunks();
    run.begin_file("a.csv".to_string(), 3);
    assert_eq!(run.batch_to_send(false, true), None);
    let (_, full) = run.accept_record(Ok(rec("1")));
    assert_eq!(run.batch_to_send(full, false), None);
    let (_, full) = run.accept_record(Ok(rec("2")));
    assert_eq!(run.batch_to_send(full, false), Some(true));
    run.batch_imported(Ok(BulkResult { success: 2, failed: 0, errors: vec![] }), true);
    let (_, full) = run.accept_record(Ok(rec("3")));
    assert_eq!(run.batch_to_send(full, false), None);
    assert_eq!(run.batch_to_send(false, true), Some(false));
}

#[test]
fn single_index_run_keeps_sending_to_the_index_name() {
    let mut run = run_with(1, "orders", 1);
    run.record_estimate("a.csv", Ok(MAX_DOCS_PER_INDEX as u64));
    run.plan_chunks();
    run.begin_file("a.csv".to_string(), 3);
    for i in 0..3 {
        assert_eq!(run.current_index_name(), "orders");
        let (_, full) = run.accept_record(Ok(rec(&i.to_string())));
        assert!(full);
        let ns = run.batch_imported(Ok(BulkResult { success: 1, failed: 0, errors: vec![] }), true);
        assert_eq!(ns.len(), 1);
    }
    assert_eq!(run.current_index_name(), "orders");
    assert_eq!(run.chunks.as_ref().unwrap().total_chunks(), 1);
    assert_eq!(run.index_name, "orders");
}

#[test]
fn every_record_of_a_file_is_counted_once() {
    let mut run = run_with(2, "idx", 1);
    run.plan_chunks();
    run.begin_file("a.csv".to_string(), 5);
    let records = vec![
        Ok(rec("1")),
        Err("bad".to_string()),
        Ok(rec("2")),
        Ok(rec("3")),
        Ok(rec("4")),
    ];
    let mut outcomes = vec![
        Ok(BulkResult { success: 1, failed: 1, errors: vec!["e: r".to_string()] }),
        Err("down".to_string()),
        Ok(BulkResult { success: 9, failed: 0, errors: vec![] }),
    ]
    .into_iter();
    let n = records.len();
    let mut it = records.into_iter();
    for _ in 0..=n {
        let next = it.next();
        let end = next.is_none();
        let mut filled = false;
        if let Some(r) = next {
            filled = run.accept_record(r).1;
        }
        if let Some(advance) = run.batch_to_send(filled, end) {
            run.batch_imported(outcomes.next().unwrap(), advance);
        }
    }
    assert!(run.batch.is_empty());
    assert_eq!(run.imported, 5);
    assert_eq!((run.file_success, run.file_failed, run.file_skipped), (1, 3, 1));
    assert_eq!(run.file_success + run.file_failed + run.file_skipped, run.file_total);
    assert!(outcomes.next().is_some());
}
