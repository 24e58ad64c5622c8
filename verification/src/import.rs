//! Bookkeeping of an import run: estimates, chunk planning, batching of
//! records, accounting of bulk outcomes, and the notices sent to the user.
//! The caller performs the file reading, the requests and the sending.

use crate::chunk::{
    chunk_count, index_name, lemma_after_rows_keeps_plan, lemma_single_chunk_stays, ChunkManager,
};
use crate::es_client::BulkResult;
use crate::json::JsonRecord;
use crate::text::{decimal, push_decimal};
use crate::types::{ImportConfig, LogLevel};
use vstd::prelude::*;

verus! {

/// A notice about the progress of an import, as shown to the user.
#[derive(Debug)]
pub enum ImportNotice {
    Started { total_files: usize },
    FileStarted { file_name: String, estimated_rows: u64 },
    Progress { current_file: String, imported: u64, total: u64 },
    Log { level: LogLevel, message: String },
    FileCompleted { file_name: String, success: u64, failed: u64, skipped: u64 },
    Completed { total_success: u64, total_failed: u64, total_skipped: u64, duration_secs: u64 },
    Error { message: String },
}

/// Whether `n` is a log notice of `level` with text `text`.
pub open spec fn is_log(n: ImportNotice, level: LogLevel, text: Seq<char>) -> bool {
    n matches ImportNotice::Log { level: l, message } && l == level && message@ == text
}

/// Whether `n` is a progress notice with these values.
pub open spec fn is_progress(n: ImportNotice, file: Seq<char>, imported: u64, total: u64) -> bool {
    n matches ImportNotice::Progress { current_file, imported: i, total: t } && current_file@ == file
        && i == imported && t == total
}

/// A log notice.
pub fn log_notice(level: LogLevel, message: String) -> (n: ImportNotice)
    ensures
        is_log(n, level, message@),
{
    ImportNotice::Log { level, message }
}

/// `a` followed by `b`.
fn joined(a: &str, b: &str) -> (s: String)
    ensures
        s@ == a@ + b@,
{
    let mut s = String::from_str(a);
    s.append(b);
    s
}

/// `a` followed by the decimal text of `n`, then `b`.
fn with_number(a: &str, n: u64, b: &str) -> (s: String)
    ensures
        s@ == a@ + decimal(n as nat) + b@,
{
    let mut s = String::from_str(a);
    push_decimal(&mut s, n);
    s.append(b);
    s
}

/// A step of the import whose failure ends it.
#[derive(Clone, Copy, Debug, PartialEq, Eq, Structural)]
pub enum ImportFailure {
    CreateClient,
    ConnectionTest,
    CreateReader,
    ReadCsv,
}

/// What the user is told when a step fails.
pub open spec fn failure_prefix(stage: ImportFailure) -> Seq<char> {
    match stage {
        ImportFailure::CreateClient => "创建 ES 客户端失败: "@,
        ImportFailure::ConnectionTest => "Elasticsearch 连接测试失败: "@,
        ImportFailure::CreateReader => "创建 CSV 读取器失败: "@,
        ImportFailure::ReadCsv => "读取 CSV 文件失败: "@,
    }
}

/// The error notice for a failed step.
pub fn failure_notice(stage: ImportFailure, error: &str) -> (n: ImportNotice)
    ensures
        n matches ImportNotice::Error { message } && message@ == failure_prefix(stage) + error@,
{
    let prefix = match stage {
        ImportFailure::CreateClient => "创建 ES 客户端失败: ",
        ImportFailure::ConnectionTest => "Elasticsearch 连接测试失败: ",
        ImportFailure::CreateReader => "创建 CSV 读取器失败: ",
        ImportFailure::ReadCsv => "读取 CSV 文件失败: ",
    };
    ImportNotice::Error { message: joined(prefix, error) }
}

/// The notice sent before testing the connection.
pub fn connection_testing_notice() -> (n: ImportNotice)
    ensures
        is_log(n, LogLevel::Info, "正在测试 Elasticsearch 连接..."@),
{
    log_notice(LogLevel::Info, String::from_str("正在测试 Elasticsearch 连接..."))
}

/// The notice sent once the connection works.
pub fn connection_ok_notice() -> (n: ImportNotice)
    ensures
        is_log(n, LogLevel::Info, "Elasticsearch 连接成功"@),
{
    log_notice(LogLevel::Info, String::from_str("Elasticsearch 连接成功"))
}

/// Documents counted as imported and as failed for a batch of `batch_len`
/// documents: the response's counts, or none imported and all failed when
/// the request failed.
pub open spec fn outcome_counts(outcome: Result<BulkResult, String>, batch_len: nat) -> (nat, nat) {
    match outcome {
        Ok(r) => (r.success as nat, r.failed as nat),
        Err(_) => (0, batch_len),
    }
}

/// Whether the outcome of sending `batch_len` documents accounts for each of
/// them once: a failed request counts them all as failed, and a response
/// counts as many successes and failures as there were documents.
pub open spec fn covers_batch(outcome: Result<BulkResult, String>, batch_len: nat) -> bool {
    outcome_counts(outcome, batch_len).0 + outcome_counts(outcome, batch_len).1 == batch_len
}

/// The log lines for a batch outcome: one warning per reported error when
/// something failed, or one error line when the request failed.
pub open spec fn outcome_logs(outcome: Result<BulkResult, String>) -> Seq<(LogLevel, Seq<char>)> {
    match outcome {
        Ok(r) => if r.failed > 0 {
            r.errors@.map_values(|e: String| (LogLevel::Warning, "导入错误: "@ + e@))
        } else {
            Seq::empty()
        },
        Err(e) => seq![(LogLevel::Error, "Bulk 请求失败: "@ + e@)],
    }
}

/// Whether the notices are the log lines, in order.
pub open spec fn are_logs(ns: Seq<ImportNotice>, logs: Seq<(LogLevel, Seq<char>)>) -> bool {
    ns.len() == logs.len() && forall|i: int|
        0 <= i < ns.len() ==> is_log(#[trigger] ns[i], logs[i].0, logs[i].1)
}

/// Accounts one bulk request for a batch of `batch_len` documents: the
/// imported and failed counts and the log notices (see `outcome_counts` and
/// `outcome_logs`).
pub fn batch_outcome(outcome: &Result<BulkResult, String>, batch_len: usize) -> (r: (
    u64,
    u64,
    Vec<ImportNotice>,
))
    ensures
        (r.0 as nat, r.1 as nat) == outcome_counts(*outcome, batch_len as nat),
        are_logs(r.2@, outcome_logs(*outcome)),
{
    let mut ns: Vec<ImportNotice> = Vec::new();
    match outcome {
        Ok(result) => {
            if result.failed > 0 {
                let n = result.errors.len();
                for i in 0..n
                    invariant
                        n == result.errors@.len(),
                        are_logs(ns@, outcome_logs(*outcome).take(i as int)),
                        result.failed > 0,
                        *outcome == Ok::<BulkResult, String>(*result),
                {
                    let ghost before = ns@;
                    ns.push(log_notice(LogLevel::Warning, joined("导入错误: ", result.errors[i].as_str())));
                    proof {
                        let logs = outcome_logs(*outcome);
                        assert(logs.take(i + 1) =~= logs.take(i as int).push(logs[i as int]));
                        assert forall|j: int| 0 <= j < ns@.len() implies is_log(#[trigger] ns@[j], logs.take(i + 1)[j].0, logs.take(i + 1)[j].1) by {
                            if j < i {
                                assert(ns@[j] == before[j]);
                            }
                        }
                    }
                }
                proof {
                    assert(outcome_logs(*outcome).take(n as int) =~= outcome_logs(*outcome));
                }
            } else {
                proof {
                    assert(outcome_logs(*outcome) =~= Seq::<(LogLevel, Seq<char>)>::empty());
                }
            }
            (result.success as u64, result.failed as u64, ns)
        },
        Err(e) => {
            ns.push(log_notice(LogLevel::Error, joined("Bulk 请求失败: ", e.as_str())));
            proof {
                assert(ns@.len() == 1);
                assert(is_log(ns@[0], LogLevel::Error, "Bulk 请求失败: "@ + e@));
            }
            (0, batch_len as u64, ns)
        },
    }
}


/// State of an import run across files: the estimated rows, the chunk plan,
/// the file in progress with its counts and pending batch, and the totals.
pub struct ImportRun {
    pub total_files: usize,
    pub batch_size: usize,
    pub index_name: String,
    pub estimated_rows: u64,
    pub chunks: Option<ChunkManager>,
    pub file_name: String,
    pub file_total: u64,
    pub file_success: u64,
    pub file_failed: u64,
    pub file_skipped: u64,
    pub imported: u64,
    pub batch: Vec<JsonRecord>,
    pub total_success: u64,
    pub total_failed: u64,
    pub total_skipped: u64,
}

/// The log line for one file's row estimate.
pub open spec fn estimate_log(file_name: Seq<char>, estimate: Result<u64, String>) -> (LogLevel, Seq<char>) {
    match estimate {
        Ok(rows) => (LogLevel::Info, "文件 "@ + file_name + " 估算行数: "@ + decimal(rows as nat)),
        Err(e) => (LogLevel::Warning, "估算文件 "@ + file_name + " 行数失败: "@ + e@),
    }
}

impl ImportRun {
    /// Records of the file taken so far: those counted as handled and those in the batch.
    pub open spec fn records_taken(&self) -> nat {
        self.imported as nat + self.batch@.len()
    }

    /// Whether every record of the file that was counted as handled is
    /// counted once as imported, failed or skipped.
    pub open spec fn accounted(&self) -> bool {
        self.file_success + self.file_failed + self.file_skipped == self.imported
    }

    /// The run's invariant: a chunk plan, once made, is valid.
    pub open spec fn wf(&self) -> bool {
        self.chunks matches Some(m) ==> m.wf()
    }

    /// Whether the chunk plan is a single chunk on the run's index name.
    pub open spec fn single_index(&self) -> bool {
        self.chunks matches Some(m) && m.chunks() == 1 && m.base_name() == self.index_name@
    }

    /// A run for this configuration, before any estimate, plan or file.
    pub fn new(config: &ImportConfig) -> (run: Self)
        ensures
            run.wf(),
            run.total_files == config.files@.len(),
            run.batch_size == config.es_config.batch_size,
            run.index_name@ == config.es_config.index_name@,
            run.estimated_rows == 0,
            run.chunks is None,
            run.file_name@ == Seq::<char>::empty(),
            run.file_total == 0,
            run.file_success == 0 && run.file_failed == 0 && run.file_skipped == 0,
            run.imported == 0,
            run.batch@.len() == 0,
            run.total_success == 0 && run.total_failed == 0 && run.total_skipped == 0,
    {
        ImportRun {
            total_files: config.files.len(),
            batch_size: config.es_config.batch_size,
            index_name: config.es_config.index_name.clone(),
            estimated_rows: 0,
            chunks: None,
            file_name: String::new(),
            file_total: 0,
            file_success: 0,
            file_failed: 0,
            file_skipped: 0,
            imported: 0,
            batch: Vec::new(),
            total_success: 0,
            total_failed: 0,
            total_skipped: 0,
        }
    }

    /// The notice that the run starts.
    pub fn started(&self) -> (n: ImportNotice)
        ensures
            n == (ImportNotice::Started { total_files: self.total_files }),
    {
        ImportNotice::Started { total_files: self.total_files }
    }

    /// Whether a file's row estimate can be added without overflow.
    pub open spec fn estimate_fits(&self, estimate: Result<u64, String>) -> bool {
        estimate matches Ok(rows) ==> self.estimated_rows + rows <= u64::MAX
    }

    /// Whether a file's row estimate can be added without overflow.
    pub fn can_add_estimate(&self, estimate: &Result<u64, String>) -> (b: bool)
        ensures
            b == self.estimate_fits(*estimate),
    {
        match estimate {
            Ok(rows) => *rows <= u64::MAX - self.estimated_rows,
            Err(_) => true,
        }
    }

    /// Adds a file's row estimate (a failed estimate counts nothing) and
    /// gives the log line about it.
    pub fn record_estimate(&mut self, file_name: &str, estimate: Result<u64, String>) -> (n:
        ImportNotice)
        requires
            old(self).estimate_fits(estimate),
        ensures
            final(self).estimated_rows == old(self).estimated_rows + match estimate {
                Ok(rows) => rows as nat,
                Err(_) => 0,
            },
            final(self).chunks == old(self).chunks,
            final(self).index_name == old(self).index_name,
            is_log(n, estimate_log(file_name@, estimate).0, estimate_log(file_name@, estimate).1),
    {
        match estimate {
            Ok(rows) => {
                self.estimated_rows = self.estimated_rows + rows;
                let mut m = joined("文件 ", file_name);
                m.append(" 估算行数: ");
                push_decimal(&mut m, rows);
                log_notice(LogLevel::Info, m)
            },
            Err(e) => {
                let mut m = joined("估算文件 ", file_name);
                m.append(" 行数失败: ");
                m.append(e.as_str());
                log_notice(LogLevel::Warning, m)
            },
        }
    }

    /// Plans the chunks for all estimated rows, and gives the log lines: the
    /// estimated total, and the number of indices when there are several.
    pub fn plan_chunks(&mut self) -> (ns: Vec<ImportNotice>)
        requires
            chunk_count(old(self).estimated_rows as nat) <= usize::MAX,
        ensures
            final(self).wf(),
            final(self).chunks matches Some(m) && m.base_name() == old(self).index_name@
                && m.planned_rows() == old(self).estimated_rows
                && m.chunks() == chunk_count(old(self).estimated_rows as nat) && m.chunk() == 1
                && m.rows_in_chunk() == 0,
            final(self).estimated_rows == old(self).estimated_rows,
            final(self).index_name == old(self).index_name,
            chunk_count(old(self).estimated_rows as nat) == 1 ==> final(self).single_index(),
            ns@.len() == (if chunk_count(old(self).estimated_rows as nat) > 1 { 2int } else { 1int }),
            is_log(ns@[0], LogLevel::Info, "所有文件估算总行数: "@ + decimal(old(self).estimated_rows as nat)),
            chunk_count(old(self).estimated_rows as nat) > 1 ==> is_log(
                ns@[1],
                LogLevel::Info,
                "数据将分成 "@ + decimal(chunk_count(old(self).estimated_rows as nat)) + " 个索引"@,
            ),
    {
        let mut ns: Vec<ImportNotice> = Vec::new();
        ns.push(log_notice(LogLevel::Info, with_number("所有文件估算总行数: ", self.estimated_rows, "")));
        let m = ChunkManager::new(self.index_name.clone(), self.estimated_rows);
        let total_chunks = m.total_chunks();
        if total_chunks > 1 {
            ns.push(log_notice(LogLevel::Info, with_number("数据将分成 ", total_chunks as u64, " 个索引")));
        }
        self.chunks = Some(m);
        proof {
            assert(("所有文件估算总行数: "@ + decimal(old(self).estimated_rows as nat) + ""@) =~= "所有文件估算总行数: "@ + decimal(old(self).estimated_rows as nat)) by {
                reveal_strlit("");
            }
        }
        ns
    }

    /// The log line when a file's processing starts.
    pub fn open_file(&self, file_name: &str) -> (n: ImportNotice)
        ensures
            is_log(n, LogLevel::Info, "开始处理文件: "@ + file_name@),
    {
        log_notice(LogLevel::Info, joined("开始处理文件: ", file_name))
    }

    /// Starts a file of `total_rows` data rows: its counts restart from zero
    /// with an empty batch; gives the file-started notice and the log line
    /// with the row count.
    pub fn begin_file(&mut self, file_name: String, total_rows: u64) -> (ns: Vec<ImportNotice>)
        ensures
            final(self).file_name@ == file_name@,
            final(self).file_total == total_rows,
            final(self).file_success == 0 && final(self).file_failed == 0 && final(self).file_skipped == 0,
            final(self).imported == 0,
            final(self).batch@.len() == 0,
            final(self).records_taken() == 0,
            final(self).accounted(),
            final(self).chunks == old(self).chunks,
            final(self).index_name == old(self).index_name,
            final(self).batch_size == old(self).batch_size,
            final(self).total_success == old(self).total_success,
            final(self).total_failed == old(self).total_failed,
            final(self).total_skipped == old(self).total_skipped,
            ns@.len() == 2,
            ns@[0] matches ImportNotice::FileStarted { file_name: f, estimated_rows } && f@ == file_name@ && estimated_rows == total_rows,
            is_log(ns@[1], LogLevel::Info, "实际读取到 "@ + decimal(total_rows as nat) + " 行数据"@),
    {
        let mut ns: Vec<ImportNotice> = Vec::new();
        ns.push(ImportNotice::FileStarted { file_name: file_name.clone(), estimated_rows: total_rows });
        ns.push(log_notice(LogLevel::Info, with_number("实际读取到 ", total_rows, " 行数据")));
        self.file_name = file_name;
        self.file_total = total_rows;
        self.file_success = 0;
        self.file_failed = 0;
        self.file_skipped = 0;
        self.imported = 0;
        self.batch = Vec::new();
        ns
    }

    /// Whether a skipped record can be counted without overflow.
    pub open spec fn skip_fits(&self) -> bool {
        self.file_skipped < u64::MAX && self.imported < u64::MAX
    }

    /// Whether a skipped record can be counted without overflow.
    pub fn can_skip(&self) -> (b: bool)
        ensures
            b == self.skip_fits(),
    {
        self.file_skipped < u64::MAX && self.imported < u64::MAX
    }

    /// Takes the next record of the file. A record joins the batch, and the
    /// result says whether the batch has reached the batch size and is to be
    /// sent. A record that could not be made is skipped: counted as skipped
    /// and as handled, with a warning and a progress notice.
    pub fn accept_record(&mut self, record: Result<JsonRecord, String>) -> (r: (
        Vec<ImportNotice>,
        bool,
    ))
        requires
            old(self).skip_fits(),
        ensures
            final(self).records_taken() == old(self).records_taken() + 1,
            old(self).accounted() ==> final(self).accounted(),
            final(self).chunks == old(self).chunks,
            final(self).index_name == old(self).index_name,
            final(self).batch_size == old(self).batch_size,
            final(self).file_name == old(self).file_name,
            final(self).file_total == old(self).file_total,
            final(self).file_success == old(self).file_success,
            final(self).file_failed == old(self).file_failed,
            final(self).total_success == old(self).total_success,
            final(self).total_failed == old(self).total_failed,
            final(self).total_skipped == old(self).total_skipped,
            match record {
                Ok(rec) => {
                    &&& final(self).batch@ == old(self).batch@.push(rec)
                    &&& final(self).file_skipped == old(self).file_skipped
                    &&& final(self).imported == old(self).imported
                    &&& r.0@.len() == 0
                    &&& r.1 == (final(self).batch@.len() >= old(self).batch_size)
                },
                Err(e) => {
                    &&& final(self).batch@ == old(self).batch@
                    &&& final(self).file_skipped == old(self).file_skipped + 1
                    &&& final(self).imported == old(self).imported + 1
                    &&& !r.1
                    &&& r.0@.len() == 2
                    &&& is_log(r.0@[0], LogLevel::Warning, "跳过记录: "@ + e@)
                    &&& is_progress(r.0@[1], old(self).file_name@, final(self).imported, old(self).file_total)
                },
            },
    {
        let mut ns: Vec<ImportNotice> = Vec::new();
        match record {
            Ok(rec) => {
                self.batch.push(rec);
                let full = self.batch.len() >= self.batch_size;
                (ns, full)
            },
            Err(e) => {
                ns.push(log_notice(LogLevel::Warning, joined("跳过记录: ", e.as_str())));
                self.file_skipped = self.file_skipped + 1;
                self.imported = self.imported + 1;
                ns.push(ImportNotice::Progress { current_file: self.file_name.clone(), imported: self.imported, total: self.file_total });
                (ns, false)
            },
        }
    }

    /// Whether and how the pending batch is sent: after a record that filled
    /// it, it is sent and its imported documents count towards the chunk plan
    /// (`Some(true)`); at the end of the file a non-empty batch is sent
    /// without advancing the chunk plan (`Some(false)`); otherwise it waits.
    pub fn batch_to_send(&self, filled: bool, end_of_file: bool) -> (r: Option<bool>)
        ensures
            r == (if end_of_file {
                if self.batch@.len() > 0 {
                    Some(false)
                } else {
                    None
                }
            } else if filled {
                Some(true)
            } else {
                None
            }),
    {
        if end_of_file {
            if self.batch.len() > 0 {
                Some(false)
            } else {
                None
            }
        } else if filled {
            Some(true)
        } else {
            None
        }
    }

    /// Name of the index the batch goes to.
    pub fn current_index_name(&self) -> (name: String)
        requires
            self.wf(),
            self.chunks is Some,
        ensures
            name@ == index_name(self.chunks.unwrap().base_name(), self.chunks.unwrap().chunk(), self.chunks.unwrap().chunks()),
    {
        match &self.chunks {
            Some(m) => m.current_index_name(),
            None => String::new(),
        }
    }

    /// Imported and failed documents of the pending batch for this outcome.
    pub open spec fn batch_counts(&self, outcome: Result<BulkResult, String>) -> (nat, nat) {
        outcome_counts(outcome, self.batch@.len())
    }

    /// The chunk plan after counting the batch's imported documents, and the
    /// names of the indices it moves to on the way.
    pub open spec fn chunks_after(&self, outcome: Result<BulkResult, String>) -> (ChunkManager, Seq<Seq<char>>) {
        self.chunks.unwrap().after_rows(self.batch_counts(outcome).0)
    }

    /// Whether a batch outcome can be counted without overflow.
    pub open spec fn batch_fits(&self, outcome: Result<BulkResult, String>, advance_chunks: bool) -> bool {
        let (s, f) = outcome_counts(outcome, self.batch@.len());
        &&& self.file_success + s <= u64::MAX
        &&& self.file_failed + f <= u64::MAX
        &&& self.imported + self.batch@.len() <= u64::MAX
        &&& advance_chunks ==> (self.chunks matches Some(m) && m.rows_in_chunk() + s <= u64::MAX)
    }

    /// Whether a batch outcome can be counted without overflow.
    pub fn can_count_batch(&self, outcome: &Result<BulkResult, String>, advance_chunks: bool) -> (b: bool)
        ensures
            b == self.batch_fits(*outcome, advance_chunks),
    {
        let len = self.batch.len() as u64;
        let (s, f) = match outcome {
            Ok(r) => (r.success as u64, r.failed as u64),
            Err(_) => (0, len),
        };
        let rows_ok = if advance_chunks {
            match &self.chunks {
                Some(m) => m.rows_in_current_chunk() <= u64::MAX - s,
                None => false,
            }
        } else {
            true
        };
        s <= u64::MAX - self.file_success && f <= u64::MAX - self.file_failed && len <= u64::MAX - self.imported && rows_ok
    }

    /// Counts the outcome of sending the batch: adds the imported and failed
    /// documents, counts the whole batch as handled, empties it, and gives
    /// the outcome's log lines then a progress notice. With
    /// `advance_chunks`, also counts each imported document towards the
    /// chunk plan, with a log line for each index it moves to.
    pub fn batch_imported(&mut self, outcome: Result<BulkResult, String>, advance_chunks: bool) -> (ns: Vec<ImportNotice>)
        requires
            old(self).wf(),
            old(self).batch_fits(outcome, advance_chunks),
        ensures
            final(self).wf(),
            final(self).file_success == old(self).file_success + old(self).batch_counts(outcome).0,
            final(self).file_failed == old(self).file_failed + old(self).batch_counts(outcome).1,
            final(self).imported == old(self).imported + old(self).batch@.len(),
            final(self).batch@.len() == 0,
            final(self).records_taken() == old(self).records_taken(),
            old(self).accounted() && covers_batch(outcome, old(self).batch@.len())
                ==> final(self).accounted(),
            final(self).file_skipped == old(self).file_skipped,
            final(self).file_name == old(self).file_name,
            final(self).file_total == old(self).file_total,
            final(self).index_name == old(self).index_name,
            final(self).batch_size == old(self).batch_size,
            final(self).total_success == old(self).total_success,
            final(self).total_failed == old(self).total_failed,
            final(self).total_skipped == old(self).total_skipped,
            final(self).chunks is Some && old(self).chunks is Some ==> {
                &&& final(self).chunks.unwrap().base_name() == old(self).chunks.unwrap().base_name()
                &&& final(self).chunks.unwrap().chunks() == old(self).chunks.unwrap().chunks()
                &&& final(self).chunks.unwrap().planned_rows() == old(self).chunks.unwrap().planned_rows()
            },
            are_logs(ns@.take(outcome_logs(outcome).len() as int), outcome_logs(outcome)),
            is_progress(
                ns@[outcome_logs(outcome).len() as int],
                old(self).file_name@,
                final(self).imported,
                old(self).file_total,
            ),
            advance_chunks ==> final(self).chunks == Some(old(self).chunks_after(outcome).0),
            advance_chunks ==> ns@.len() == outcome_logs(outcome).len() + 1 + old(self).chunks_after(
                outcome,
            ).1.len(),
            advance_chunks ==> forall|j: int|
                0 <= j < old(self).chunks_after(outcome).1.len() ==> is_log(
                    ns@[outcome_logs(outcome).len() + 1 + j],
                    LogLevel::Info,
                    "切换到新索引: "@ + #[trigger] old(self).chunks_after(outcome).1[j],
                ),
            !advance_chunks ==> final(self).chunks == old(self).chunks,
            !advance_chunks ==> ns@.len() == outcome_logs(outcome).len() + 1,
    {
        let (s, f, mut ns) = batch_outcome(&outcome, self.batch.len());
        let ghost logs_len = ns@.len();
        let ghost first_ns = ns@;
        self.file_success = self.file_success + s;
        self.file_failed = self.file_failed + f;
        self.imported = self.imported + self.batch.len() as u64;
        ns.push(ImportNotice::Progress { current_file: self.file_name.clone(), imported: self.imported, total: self.file_total });
        self.batch = Vec::new();
        let ghost prefix = ns@;
        proof {
            assert(is_progress(prefix[logs_len as int], self.file_name@, self.imported, self.file_total));
            assert(prefix.len() == logs_len + 1);
            assert forall|i: int| 0 <= i < logs_len implies prefix[i] == first_ns[i] by {}
        }
        if advance_chunks {
            let ghost old_chunks = self.chunks.unwrap();
            let mut m = match self.chunks.take() {
                Some(m) => m,
                None => ChunkManager::new(String::new(), 0),
            };
            let names = m.add_rows(s);
            self.chunks = Some(m);
            let ghost spec_names = old_chunks.after_rows(s as nat).1;
            proof {
                lemma_after_rows_keeps_plan(old_chunks, s as nat);
            }
            let n = names.len();
            for j in 0..n
                invariant
                    n == names@.len(),
                    prefix.len() == logs_len + 1,
                    ns@.len() == prefix.len() + j,
                    forall|i: int| 0 <= i < prefix.len() ==> ns@[i] == prefix[i],
                    forall|i: int| 0 <= i < j ==> is_log(ns@[prefix.len() + i], LogLevel::Info, "切换到新索引: "@ + (#[trigger] names@[i])@),
            {
                ns.push(log_notice(LogLevel::Info, joined("切换到新索引: ", names[j].as_str())));
            }
            proof {
                assert(spec_names == names@.map_values(|x: String| x@));
                assert forall|j: int| 0 <= j < spec_names.len() implies is_log(ns@[logs_len + 1 + j], LogLevel::Info, "切换到新索引: "@ + #[trigger] spec_names[j]) by {
                    assert(spec_names[j] == names@[j]@);
                }
            }
        }
        proof {
            assert forall|i: int| 0 <= i < logs_len implies ns@[i] == first_ns[i] by {
                assert(ns@[i] == prefix[i]);
            }
            assert(ns@.take(logs_len as int) =~= first_ns);
            assert(ns@[logs_len as int] == prefix[logs_len as int]);
        }
        ns
    }

    /// Whether the file's counts can be added to the totals without overflow.
    pub open spec fn finish_fits(&self) -> bool {
        &&& self.total_success + self.file_success <= u64::MAX
        &&& self.total_failed + self.file_failed <= u64::MAX
        &&& self.total_skipped + self.file_skipped <= u64::MAX
    }

    /// Whether the file's counts can be added to the totals without overflow.
    pub fn can_finish_file(&self) -> (b: bool)
        ensures
            b == self.finish_fits(),
    {
        self.file_success <= u64::MAX - self.total_success && self.file_failed <= u64::MAX - self.total_failed && self.file_skipped <= u64::MAX - self.total_skipped
    }

    /// Ends the file: adds its counts to the totals and gives the
    /// file-completed notice.
    pub fn finish_file(&mut self) -> (n: ImportNotice)
        requires
            old(self).finish_fits(),
        ensures
            final(self).total_success == old(self).total_success + old(self).file_success,
            final(self).total_failed == old(self).total_failed + old(self).file_failed,
            final(self).total_skipped == old(self).total_skipped + old(self).file_skipped,
            final(self).chunks == old(self).chunks,
            final(self).index_name == old(self).index_name,
            final(self).batch_size == old(self).batch_size,
            n matches ImportNotice::FileCompleted { file_name, success, failed, skipped } && file_name@ == old(self).file_name@ && success == old(self).file_success && failed == old(self).file_failed && skipped == old(self).file_skipped,
    {
        self.total_success = self.total_success + self.file_success;
        self.total_failed = self.total_failed + self.file_failed;
        self.total_skipped = self.total_skipped + self.file_skipped;
        ImportNotice::FileCompleted { file_name: self.file_name.clone(), success: self.file_success, failed: self.file_failed, skipped: self.file_skipped }
    }

    /// The notice that the run is complete, with its totals and duration.
    pub fn completed(&self, duration_secs: u64) -> (n: ImportNotice)
        ensures
            n == (ImportNotice::Completed { total_success: self.total_success, total_failed: self.total_failed, total_skipped: self.total_skipped, duration_secs }),
    {
        ImportNotice::Completed { total_success: self.total_success, total_failed: self.total_failed, total_skipped: self.total_skipped, duration_secs }
    }
}

/// With a single planned chunk made from the run's index name, every batch
/// goes to that index name, and counting the imported documents of any
/// outcome keeps it so: the plan stays a single chunk on the same base name,
/// and no switch to another index is reported.
pub proof fn lemma_single_chunk_targets_index_name(
    run: ImportRun,
    outcome: Result<BulkResult, String>,
)
    requires
        run.wf(),
        run.single_index(),
    ensures
        index_name(
            run.chunks.unwrap().base_name(),
            run.chunks.unwrap().chunk(),
            run.chunks.unwrap().chunks(),
        ) == run.index_name@,
        run.chunks_after(outcome).0.chunks() == 1,
        run.chunks_after(outcome).0.base_name() == run.index_name@,
        run.chunks_after(outcome).1.len() == 0,
        (ImportRun { chunks: Some(run.chunks_after(outcome).0), ..run }).single_index(),
{
    let m = run.chunks.unwrap();
    let k = run.batch_counts(outcome).0;
    lemma_after_rows_keeps_plan(m, k);
    lemma_single_chunk_stays(m, k);
}

/// Once every record of a file has been taken and the last batch sent, with
/// each step keeping the accounting, the file's imported, failed and skipped
/// counts add up to its number of data rows.
pub proof fn lemma_file_fully_counted(run: ImportRun)
    requires
        run.accounted(),
        run.batch@.len() == 0,
        run.records_taken() == run.file_total,
    ensures
        run.file_success + run.file_failed + run.file_skipped == run.file_total,
{
}

} // verus!
