//! Configuration, delimiter choice, log levels, statistics and the shapes of
//! Elasticsearch bulk requests and responses.

use std::path::PathBuf;
use vstd::prelude::*;

verus! {

/// Lets paths of files to import stand in configurations.
#[verifier::external_type_specification]
#[verifier::external_body]
pub struct ExPathBuf(PathBuf);

/// Elasticsearch connection settings.
#[derive(Clone, Debug)]
pub struct EsConfig {
    pub address: String,
    pub username: Option<String>,
    pub password: Option<String>,
    pub index_name: String,
    pub batch_size: usize,
}

impl Default for EsConfig {
    fn default() -> (c: Self)
        ensures
            c.address@ == "http://192.168.1.200:9200"@,
            c.username is None,
            c.password is None,
            c.index_name@ == Seq::<char>::empty(),
            c.batch_size == 1000,
    {
        EsConfig {
            address: String::from_str("http://192.168.1.200:9200"),
            username: None,
            password: None,
            index_name: String::new(),
            batch_size: 1000,
        }
    }
}

/// How fields of a CSV file are separated.
#[derive(Clone, Copy, Debug, PartialEq, Eq, Structural)]
pub enum Delimiter {
    Auto,
    Comma,
    Semicolon,
    Tab,
    Pipe,
}

/// The byte a delimiter choice stands for; `None` when it is to be detected.
pub open spec fn delimiter_byte(d: Delimiter) -> Option<u8> {
    match d {
        Delimiter::Auto => None,
        Delimiter::Comma => Some(44u8),
        Delimiter::Semicolon => Some(59u8),
        Delimiter::Tab => Some(9u8),
        Delimiter::Pipe => Some(124u8),
    }
}

/// The label under which a delimiter choice is shown.
pub open spec fn delimiter_label(d: Delimiter) -> Seq<char> {
    match d {
        Delimiter::Auto => "自动检测"@,
        Delimiter::Comma => "逗号 (,)"@,
        Delimiter::Semicolon => "分号 (;)"@,
        Delimiter::Tab => "制表符 (\\t)"@,
        Delimiter::Pipe => "竖线 (|)"@,
    }
}

impl Delimiter {
    /// The separator byte, or `None` for automatic detection.
    pub fn to_byte(&self) -> (b: Option<u8>)
        ensures
            b == delimiter_byte(*self),
    {
        match self {
            Delimiter::Auto => None,
            Delimiter::Comma => Some(44u8),
            Delimiter::Semicolon => Some(59u8),
            Delimiter::Tab => Some(9u8),
            Delimiter::Pipe => Some(124u8),
        }
    }

    /// The label shown for this choice.
    pub fn to_string(&self) -> (s: String)
        ensures
            s@ == delimiter_label(*self),
    {
        match self {
            Delimiter::Auto => String::from_str("自动检测"),
            Delimiter::Comma => String::from_str("逗号 (,)"),
            Delimiter::Semicolon => String::from_str("分号 (;)"),
            Delimiter::Tab => String::from_str("制表符 (\\t)"),
            Delimiter::Pipe => String::from_str("竖线 (|)"),
        }
    }
}

/// Largest serialized size of one record by default: 100 MiB.
pub const DEFAULT_MAX_RECORD_SIZE: usize = 104_857_600;

/// Everything one import run needs.
#[derive(Clone, Debug)]
pub struct ImportConfig {
    pub es_config: EsConfig,
    pub files: Vec<PathBuf>,
    pub delimiter: Delimiter,
    pub max_record_size: usize,
}

impl Default for ImportConfig {
    fn default() -> (c: Self)
        ensures
            c.es_config.address@ == "http://192.168.1.200:9200"@,
            c.es_config.username is None,
            c.es_config.password is None,
            c.es_config.index_name@ == Seq::<char>::empty(),
            c.es_config.batch_size == 1000,
            c.files@.len() == 0,
            c.delimiter == Delimiter::Auto,
            c.max_record_size == 100 * 1024 * 1024,
    {
        ImportConfig {
            es_config: EsConfig::default(),
            files: Vec::new(),
            delimiter: Delimiter::Auto,
            max_record_size: DEFAULT_MAX_RECORD_SIZE,
        }
    }
}

/// Severity of a log line.
#[derive(Clone, Copy, Debug, PartialEq, Eq, Structural)]
pub enum LogLevel {
    Info,
    Warning,
    Error,
}

/// The label under which a log level is shown.
pub open spec fn log_level_label(l: LogLevel) -> Seq<char> {
    match l {
        LogLevel::Info => "信息"@,
        LogLevel::Warning => "警告"@,
        LogLevel::Error => "错误"@,
    }
}

impl LogLevel {
    /// The label shown for this level.
    pub fn to_string(&self) -> (s: &str)
        ensures
            s@ == log_level_label(*self),
    {
        match self {
            LogLevel::Info => "信息",
            LogLevel::Warning => "警告",
            LogLevel::Error => "错误",
        }
    }
}

/// Totals of a finished import.
#[derive(Clone, Debug)]
pub struct ImportStats {
    pub total_success: u64,
    pub total_failed: u64,
    pub total_skipped: u64,
    pub duration_secs: u64,
}

impl Default for ImportStats {
    fn default() -> (s: Self)
        ensures
            s.total_success == 0,
            s.total_failed == 0,
            s.total_skipped == 0,
            s.duration_secs == 0,
    {
        ImportStats { total_success: 0, total_failed: 0, total_skipped: 0, duration_secs: 0 }
    }
}

/// The action line of a bulk request: `{"index": {"_index": ...}}`.
#[derive(Debug)]
pub struct BulkIndexAction {
    pub index: BulkIndexMeta,
}

/// Target of a bulk index action; serialized under the key `_index`.
#[derive(Debug)]
pub struct BulkIndexMeta {
    pub index: String,
}

/// Reply to a bulk request.
#[derive(Debug)]
pub struct BulkResponse {
    pub took: u64,
    pub errors: bool,
    pub items: Vec<BulkResponseItem>,
}

/// Outcome of one action of a bulk request, under the action's name.
#[derive(Debug)]
pub struct BulkResponseItem {
    pub index: Option<BulkResponseItemDetail>,
    pub create: Option<BulkResponseItemDetail>,
    pub update: Option<BulkResponseItemDetail>,
    pub delete: Option<BulkResponseItemDetail>,
}

/// Details of one action's outcome; `index` and `id` are serialized as `_index` and `_id`.
#[derive(Debug)]
pub struct BulkResponseItemDetail {
    pub index: String,
    pub id: Option<String>,
    pub status: u16,
    pub error: Option<BulkError>,
}

/// Why an action failed; `error_type` is serialized as `type`.
#[derive(Debug)]
pub struct BulkError {
    pub error_type: String,
    pub reason: String,
}

} // verus!
