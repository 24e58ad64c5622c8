use csv_import::es_client::{
    basic_auth, bulk_http_error, bulk_request_body, bulk_url, connection_http_error,
    http_status_ok, summarize_bulk_response, BulkRetry, RetryStep,
};
use csv_import::json::JsonRecord;
use csv_import::types::{
    BulkError, BulkResponse, BulkResponseItem, BulkResponseItemDetail, EsConfig,
};

fn detail(status: u16, error: Option<(&str, &str)>) -> BulkResponseItemDetail {
    BulkResponseItemDetail {
        index: "idx".to_string(),
        id: None,
        status,
        error: error.map(|(t, r)| BulkError { error_type: t.to_string(), reason: r.to_string() }),
    }
}

fn item(
    index: Option<BulkResponseItemDetail>,
    create: Option<BulkResponseItemDetail>,
    update: Option<BulkResponseItemDetail>,
    delete: Option<BulkResponseItemDetail>,
) -> BulkResponseItem {
    BulkResponseItem { index, create, update, delete }
}

#[test]
fn url_appends_bulk_endpoint() {
    assert_eq!(bulk_url("http://localhost:9200"), "http://localhost:9200/_bulk");
}

#[test]
fn auth_needs_both_user_and_password() {
    let mut c = EsConfig::default();
    assert_eq!(basic_auth(&c), None);
    c.username = Some("u".to_string());
    assert_eq!(basic_auth(&c), None);
    c.password = Some("p".to_string());
    assert_eq!(basic_auth(&c), Some(("u".to_string(), "p".to_string())));
    c.username = None;
    assert_eq!(basic_auth(&c), None);
}

#[test]
fn bulk_body_frames_each_document() {
    let docs = vec![
        JsonRecord { fields: vec![("b".to_string(), "2".to_string()), ("a".to_string(), "1".to_string())] },
        JsonRecord { fields: vec![("q".to_string(), "say \"hi\"".to_string())] },
    ];
    let body = bulk_request_body("my_idx", &docs).unwrap();
    assert_eq!(
        body,
        "{\"index\":{\"_index\":\"my_idx\"}}\n{\"a\":\"1\",\"b\":\"2\"}\n{\"index\":{\"_index\":\"my_idx\"}}\n{\"q\":\"say \\\"hi\\\"\"}\n"
    );
    assert_eq!(bulk_request_body("x", &vec![]).unwrap(), "");
}

#[test]
fn duplicate_keys_keep_the_last_value() {
    let docs = vec![JsonRecord {
        fields: vec![("k".to_string(), "1".to_string()), ("k".to_string(), "2".to_string())],
    }];
    assert_eq!(
        bulk_request_body("i", &docs).unwrap(),
        "{\"index\":{\"_index\":\"i\"}}\n{\"k\":\"2\"}\n"
    );
}

#[test]
fn response_summary_counts_by_status() {
    let resp = BulkResponse {
        took: 3,
        errors: true,
        items: vec![
            item(Some(detail(201, None)), None, None, None),
            item(Some(detail(400, Some(("mapper_parsing_exception", "bad field")))), None, None, None),
            item(None, Some(detail(200, None)), None, None),
            item(None, None, Some(detail(409, None)), None),
            item(None, None, None, Some(detail(500, Some(("x", "y"))))),
            item(Some(detail(299, None)), Some(detail(500, None)), None, None),
            item(Some(detail(300, Some(("t", "r")))), None, None, None),
        ],
    };
    let r = summarize_bulk_response(&resp);
    assert_eq!(r.success, 3);
    assert_eq!(r.failed, 3);
    assert_eq!(r.errors, vec!["mapper_parsing_exception: bad field".to_string(), "t: r".to_string()]);
}

#[test]
fn empty_response_counts_nothing() {
    let resp = BulkResponse { took: 0, errors: false, items: vec![] };
    let r = summarize_bulk_response(&resp);
    assert_eq!((r.success, r.failed, r.errors.len()), (0, 0, 0));
}

#[test]
fn retries_back_off_then_give_up() {
    let mut retry = BulkRetry::new();
    let mut delays = Vec::new();
    loop {
        match retry.on_failure("timeout") {
            RetryStep::Retry { delay_secs } => delays.push(delay_secs),
            RetryStep::GiveUp { message } => {
                assert_eq!(message, "Bulk 请求失败（重试 3 次后）: timeout");
                break;
            }
        }
    }
    assert_eq!(delays, vec![1, 2, 4]);
    match retry.on_failure("again") {
        RetryStep::GiveUp { message } => assert_eq!(message, "Bulk 请求失败（重试 3 次后）: again"),
        RetryStep::Retry { .. } => panic!("no retry after three"),
    }
}

#[test]
fn http_statuses_and_their_errors() {
    assert!(http_status_ok(200));
    assert!(http_status_ok(201));
    assert!(http_status_ok(299));
    assert!(!http_status_ok(199));
    assert!(!http_status_ok(300));
    assert!(!http_status_ok(404));
    assert_eq!(
        bulk_http_error("413 Payload Too Large", "too big"),
        "HTTP 错误 413 Payload Too Large: too big"
    );
    assert_eq!(connection_http_error("401 Unauthorized"), "连接失败: HTTP 401 Unauthorized");
}
