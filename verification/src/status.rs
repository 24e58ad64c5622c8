//! What the user interface shows of an import: the log, the file in
//! progress, the counts and the final statistics; and the checks made
//! before an import starts.

use crate::import::ImportNotice;
use crate::text::{
    all_digits, decimal, digits_value, is_blank, is_blank_text, lemma_digits_value_decimal, parse_usize,
    parsed_usize, push_decimal,
};
use crate::types::{Delimiter, EsConfig, ImportConfig, ImportStats, LogLevel, DEFAULT_MAX_RECORD_SIZE};
use std::path::PathBuf;
use vstd::prelude::*;

verus! {

/// Most log entries kept; older ones are dropped first.
pub const MAX_LOG_ENTRIES: usize = 1000;

/// One line of the log.
#[derive(Debug)]
pub struct LogEntry {
    pub level: LogLevel,
    pub message: String,
}

/// Level and text of each log entry.
pub open spec fn log_view(logs: Seq<LogEntry>) -> Seq<(LogLevel, Seq<char>)> {
    logs.map_values(|e: LogEntry| (e.level, e.message@))
}

/// The log after adding an entry: appended, and the oldest dropped when
/// more than `MAX_LOG_ENTRIES` remain.
pub open spec fn log_after(logs: Seq<(LogLevel, Seq<char>)>, entry: (LogLevel, Seq<char>)) -> Seq<(LogLevel, Seq<char>)> {
    let l = logs.push(entry);
    if l.len() > 1000 {
        l.drop_first()
    } else {
        l
    }
}

/// The log line when an import of `n` files starts.
pub open spec fn started_message(n: nat) -> Seq<char> {
    "开始导入 "@ + decimal(n) + " 个文件"@
}

/// The log line when a file starts.
pub open spec fn file_started_message(file_name: Seq<char>, rows: nat) -> Seq<char> {
    "开始处理文件: "@ + file_name + "，预估 "@ + decimal(rows) + " 行"@
}

/// The log line when a file is done.
pub open spec fn file_completed_message(file_name: Seq<char>, success: nat, failed: nat, skipped: nat) -> Seq<char> {
    "文件 "@ + file_name + " 完成: 成功 "@ + decimal(success) + ", 失败 "@ + decimal(failed) + ", 跳过 "@ + decimal(skipped)
}

/// Reading back a file's result line: after the file name and
/// `" 完成: 成功 "` come the success count, then `", 失败 "` and the failed
/// count, then `", 跳过 "` and the skipped count, which ends the line; each
/// count reads back as the number it shows.
pub proof fn lemma_file_completed_message_reads_back(
    file_name: Seq<char>,
    success: nat,
    failed: nat,
    skipped: nat,
)
    ensures
        ({
            let m = file_completed_message(file_name, success, failed, skipped);
            let a = "文件 "@ + file_name + " 完成: 成功 "@;
            let i1 = a.len() as int;
            let i2 = i1 + decimal(success).len();
            let i3 = i2 + ", 失败 "@.len();
            let i4 = i3 + decimal(failed).len();
            let i5 = i4 + ", 跳过 "@.len();
            &&& m.len() == i5 + decimal(skipped).len()
            &&& m.subrange(0, i1) == a
            &&& digits_value(m.subrange(i1, i2)) == success
            &&& m.subrange(i2, i3) == ", 失败 "@
            &&& digits_value(m.subrange(i3, i4)) == failed
            &&& m.subrange(i4, i5) == ", 跳过 "@
            &&& digits_value(m.subrange(i5, m.len() as int)) == skipped
        }),
{
    let m = file_completed_message(file_name, success, failed, skipped);
    let a = "文件 "@ + file_name + " 完成: 成功 "@;
    let i1 = a.len() as int;
    let i2 = i1 + decimal(success).len();
    let i3 = i2 + ", 失败 "@.len();
    let i4 = i3 + decimal(failed).len();
    let i5 = i4 + ", 跳过 "@.len();
    lemma_digits_value_decimal(success);
    lemma_digits_value_decimal(failed);
    lemma_digits_value_decimal(skipped);
    assert(m.subrange(0, i1) =~= a);
    assert(m.subrange(i1, i2) =~= decimal(success));
    assert(m.subrange(i2, i3) =~= ", 失败 "@);
    assert(m.subrange(i3, i4) =~= decimal(failed));
    assert(m.subrange(i4, i5) =~= ", 跳过 "@);
    assert(m.subrange(i5, m.len() as int) =~= decimal(skipped));
}

/// Adding to a log of at most `MAX_LOG_ENTRIES` entries keeps the newest:
/// the new entry comes last, the log grows by one until it holds
/// `MAX_LOG_ENTRIES`, and it is always the tail of the old log followed by
/// the new entry, so only the oldest entry is ever dropped.
pub proof fn lemma_log_keeps_newest(logs: Seq<(LogLevel, Seq<char>)>, entry: (LogLevel, Seq<char>))
    requires
        logs.len() <= 1000,
    ensures
        log_after(logs, entry).len() == if logs.len() < 1000 {
            logs.len() + 1
        } else {
            1000
        },
        log_after(logs, entry).last() == entry,
        log_after(logs, entry) == logs.push(entry).subrange(
            logs.len() + 1 - log_after(logs, entry).len(),
            logs.len() + 1int,
        ),
{
    let l = logs.push(entry);
    if l.len() > 1000 {
        assert(l.drop_first() =~= l.subrange(1, l.len() as int));
    } else {
        assert(l =~= l.subrange(0, l.len() as int));
    }
}

/// Reading back the start lines: the number of files after `"开始导入 "`,
/// and a file's row estimate after its name and `"，预估 "`.
pub proof fn lemma_start_messages_read_back(n: nat, file_name: Seq<char>, rows: nat)
    ensures
        ({
            let m = started_message(n);
            let i1 = "开始导入 "@.len() as int;
            let i2 = i1 + decimal(n).len();
            &&& m.subrange(0, i1) == "开始导入 "@
            &&& digits_value(m.subrange(i1, i2)) == n
            &&& m.subrange(i2, m.len() as int) == " 个文件"@
        }),
        ({
            let m = file_started_message(file_name, rows);
            let i1 = ("开始处理文件: "@.len() + file_name.len()) as int;
            let i2 = i1 + "，预估 "@.len();
            let i3 = i2 + decimal(rows).len();
            &&& m.subrange(0, i1) == "开始处理文件: "@ + file_name
            &&& m.subrange(i1, i2) == "，预估 "@
            &&& digits_value(m.subrange(i2, i3)) == rows
            &&& m.subrange(i3, m.len() as int) == " 行"@
        }),
{
    lemma_digits_value_decimal(n);
    lemma_digits_value_decimal(rows);
    let m = started_message(n);
    let i1 = "开始导入 "@.len() as int;
    let i2 = i1 + decimal(n).len();
    assert(m.subrange(0, i1) =~= "开始导入 "@);
    assert(m.subrange(i1, i2) =~= decimal(n));
    assert(m.subrange(i2, m.len() as int) =~= " 个文件"@);
    let f = file_started_message(file_name, rows);
    let j1 = ("开始处理文件: "@.len() + file_name.len()) as int;
    let j2 = j1 + "，预估 "@.len();
    let j3 = j2 + decimal(rows).len();
    assert(f.subrange(0, j1) =~= "开始处理文件: "@ + file_name);
    assert(f.subrange(j1, j2) =~= "，预估 "@);
    assert(f.subrange(j2, j3) =~= decimal(rows));
    assert(f.subrange(j3, f.len() as int) =~= " 行"@);
}

/// `after` is `before` with one entry logged and nothing else changed.
pub open spec fn unchanged_but_log(before: ImportStatus, after: ImportStatus, entry: (LogLevel, Seq<char>)) -> bool {
    &&& after.is_importing == before.is_importing
    &&& after.current_file == before.current_file
    &&& after.imported == before.imported
    &&& after.total == before.total
    &&& after.stats == before.stats
    &&& log_view(after.logs@) == log_after(log_view(before.logs@), entry)
}

/// State of the import as the user sees it.
pub struct ImportStatus {
    pub is_importing: bool,
    pub current_file: String,
    pub imported: u64,
    pub total: u64,
    pub logs: Vec<LogEntry>,
    pub stats: Option<ImportStats>,
}

impl ImportStatus {
    /// The log holds at most `MAX_LOG_ENTRIES` entries.
    pub open spec fn wf(&self) -> bool {
        self.logs@.len() <= 1000
    }

    /// Nothing imported, nothing logged.
    pub fn new() -> (s: Self)
        ensures
            s.wf(),
            !s.is_importing,
            s.current_file@ == Seq::<char>::empty(),
            s.imported == 0 && s.total == 0,
            s.logs@.len() == 0,
            s.stats is None,
    {
        ImportStatus {
            is_importing: false,
            current_file: String::new(),
            imported: 0,
            total: 0,
            logs: Vec::new(),
            stats: None,
        }
    }

    /// Adds a log entry, dropping the oldest when the log would exceed
    /// `MAX_LOG_ENTRIES` entries.
    pub fn add_log(&mut self, level: LogLevel, message: String)
        requires
            old(self).wf(),
        ensures
            final(self).wf(),
            log_view(final(self).logs@) == log_after(log_view(old(self).logs@), (level, message@)),
            final(self).is_importing == old(self).is_importing,
            final(self).current_file == old(self).current_file,
            final(self).imported == old(self).imported,
            final(self).total == old(self).total,
            final(self).stats == old(self).stats,
    {
        let ghost before = log_view(self.logs@);
        let ghost m = message@;
        self.logs.push(LogEntry { level, message });
        proof {
            assert(log_view(self.logs@) =~= before.push((level, m)));
        }
        if self.logs.len() > MAX_LOG_ENTRIES {
            let ghost pushed = self.logs@;
            self.logs.remove(0);
            proof {
                assert(self.logs@ =~= pushed.drop_first());
                assert(log_view(self.logs@) =~= before.push((level, m)).drop_first());
            }
        }
    }

    /// Updates the view from a notice of the import: the start and each
    /// file's start and completion are logged; progress updates the file and
    /// counts; log notices are logged; completion stops the import, keeps its
    /// statistics and is logged; an error is logged and stops the import.
    pub fn handle_notice(&mut self, notice: ImportNotice)
        requires
            old(self).wf(),
        ensures
            final(self).wf(),
            match notice {
                ImportNotice::Started { total_files } => unchanged_but_log(*old(self), *final(self), (LogLevel::Info, started_message(total_files as nat))),
                ImportNotice::FileStarted { file_name, estimated_rows } => {
                    &&& final(self).current_file@ == file_name@
                    &&& final(self).total == estimated_rows
                    &&& final(self).imported == 0
                    &&& final(self).is_importing == old(self).is_importing
                    &&& final(self).stats == old(self).stats
                    &&& log_view(final(self).logs@) == log_after(log_view(old(self).logs@), (LogLevel::Info, file_started_message(file_name@, estimated_rows as nat)))
                },
                ImportNotice::Progress { current_file, imported, total } => {
                    &&& final(self).current_file@ == current_file@
                    &&& final(self).imported == imported
                    &&& final(self).total == total
                    &&& final(self).is_importing == old(self).is_importing
                    &&& final(self).stats == old(self).stats
                    &&& final(self).logs == old(self).logs
                },
                ImportNotice::Log { level, message } => unchanged_but_log(*old(self), *final(self), (level, message@)),
                ImportNotice::FileCompleted { file_name, success, failed, skipped } => unchanged_but_log(*old(self), *final(self), (LogLevel::Info, file_completed_message(file_name@, success as nat, failed as nat, skipped as nat))),
                ImportNotice::Completed { total_success, total_failed, total_skipped, duration_secs } => {
                    &&& !final(self).is_importing
                    &&& final(self).stats == Some(ImportStats { total_success, total_failed, total_skipped, duration_secs })
                    &&& final(self).current_file == old(self).current_file
                    &&& final(self).imported == old(self).imported
                    &&& final(self).total == old(self).total
                    &&& log_view(final(self).logs@) == log_after(log_view(old(self).logs@), (LogLevel::Info, "导入完成！"@))
                },
                ImportNotice::Error { message } => {
                    &&& !final(self).is_importing
                    &&& final(self).stats == old(self).stats
                    &&& final(self).current_file == old(self).current_file
                    &&& final(self).imported == old(self).imported
                    &&& final(self).total == old(self).total
                    &&& log_view(final(self).logs@) == log_after(log_view(old(self).logs@), (LogLevel::Error, message@))
                },
            },
    {
        match notice {
            ImportNotice::Started { total_files } => {
                let mut m = String::from_str("开始导入 ");
                push_decimal(&mut m, total_files as u64);
                m.append(" 个文件");
                self.add_log(LogLevel::Info, m);
            },
            ImportNotice::FileStarted { file_name, estimated_rows } => {
                let mut m = String::from_str("开始处理文件: ");
                m.append(file_name.as_str());
                m.append("，预估 ");
                push_decimal(&mut m, estimated_rows);
                m.append(" 行");
                self.current_file = file_name;
                self.total = estimated_rows;
                self.imported = 0;
                self.add_log(LogLevel::Info, m);
            },
            ImportNotice::Progress { current_file, imported, total } => {
                self.current_file = current_file;
                self.imported = imported;
                self.total = total;
            },
            ImportNotice::Log { level, message } => {
                self.add_log(level, message);
            },
            ImportNotice::FileCompleted { file_name, success, failed, skipped } => {
                let mut m = String::from_str("文件 ");
                m.append(file_name.as_str());
                m.append(" 完成: 成功 ");
                push_decimal(&mut m, success);
                m.append(", 失败 ");
                push_decimal(&mut m, failed);
                m.append(", 跳过 ");
                push_decimal(&mut m, skipped);
                self.add_log(LogLevel::Info, m);
            },
            ImportNotice::Completed { total_success, total_failed, total_skipped, duration_secs } => {
                self.is_importing = false;
                self.stats = Some(ImportStats { total_success, total_failed, total_skipped, duration_secs });
                self.add_log(LogLevel::Info, String::from_str("导入完成！"));
            },
            ImportNotice::Error { message } => {
                self.add_log(LogLevel::Error, message);
                self.is_importing = false;
            },
        }
    }

    /// Starts showing a new import: importing, no file, zero counts, an
    /// empty log and no statistics.
    pub fn reset_for_import(&mut self)
        ensures
            final(self).wf(),
            final(self).is_importing,
            final(self).current_file@ == Seq::<char>::empty(),
            final(self).imported == 0 && final(self).total == 0,
            final(self).logs@.len() == 0,
            final(self).stats is None,
    {
        self.is_importing = true;
        self.current_file = String::new();
        self.imported = 0;
        self.total = 0;
        self.logs = Vec::new();
        self.stats = None;
    }
}


/// The outcome of checking an import request: the error shown first, or the batch size.
pub open spec fn request_check(file_count: nat, index_name: Seq<char>, batch_size_text: Seq<char>) -> Result<usize, Seq<char>> {
    if file_count == 0 {
        Err("请先选择文件"@)
    } else if is_blank_text(index_name) {
        Err("请输入索引名称"@)
    } else {
        match parsed_usize(batch_size_text) {
            Some(n) => if n > 0 {
                Ok(n)
            } else {
                Err("批次大小必须是正整数"@)
            },
            None => Err("批次大小必须是正整数"@),
        }
    }
}

/// Every batch size text that reads as a positive integer is accepted as
/// that batch size once a file is chosen and the index name is not blank:
/// in particular the decimal text of any positive `n`; and an accepted
/// request always has a positive batch size read from the text.
pub proof fn lemma_positive_batch_size_accepted(
    file_count: nat,
    index_name: Seq<char>,
    batch_size_text: Seq<char>,
    n: usize,
)
    ensures
        file_count > 0 && !is_blank_text(index_name) && parsed_usize(batch_size_text) == Some(n)
            && n > 0 ==> request_check(file_count, index_name, batch_size_text) == Ok::<
            usize,
            Seq<char>,
        >(n),
        file_count > 0 && !is_blank_text(index_name) && n > 0 ==> request_check(
            file_count,
            index_name,
            decimal(n as nat),
        ) == Ok::<usize, Seq<char>>(n),
        request_check(file_count, index_name, batch_size_text) matches Ok(k) ==> k > 0
            && parsed_usize(batch_size_text) == Some(k) && file_count > 0 && !is_blank_text(index_name),
{
    lemma_digits_value_decimal(n as nat);
    let d = decimal(n as nat);
    assert(all_digits(d));
    assert(d.len() > 0) by {
        reveal_with_fuel(decimal, 2);
    }
    assert(d[0] != '+') by {
        assert(crate::text::is_digit_char(d[0]));
    }
    assert(crate::text::unsigned_digits(d) == d);
    assert(parsed_usize(d) == Some(n));
}

/// The checks come in order: with no file chosen the request is refused for
/// that whatever the rest; with a file but a blank index name, for the name
/// whatever the batch size; and otherwise a batch size text that does not
/// read as a positive integer is refused for the batch size.
pub proof fn lemma_request_checks_in_order(
    file_count: nat,
    index_name: Seq<char>,
    batch_size_text: Seq<char>,
)
    ensures
        file_count == 0 ==> request_check(file_count, index_name, batch_size_text) == Err::<
            usize,
            Seq<char>,
        >("请先选择文件"@),
        file_count > 0 && is_blank_text(index_name) ==> request_check(
            file_count,
            index_name,
            batch_size_text,
        ) == Err::<usize, Seq<char>>("请输入索引名称"@),
        file_count > 0 && !is_blank_text(index_name) && !(parsed_usize(batch_size_text) matches Some(
            n,
        ) && n > 0) ==> request_check(file_count, index_name, batch_size_text) == Err::<
            usize,
            Seq<char>,
        >("批次大小必须是正整数"@),
{
}

/// Checks an import request before it starts: some file must be chosen,
/// the index name must not be blank, and the batch size must be a positive
/// integer; gives the batch size or the message for the first failed check.
pub fn check_import_request(file_count: usize, index_name: &str, batch_size_text: &str) -> (r: Result<usize, String>)
    ensures
        match request_check(file_count as nat, index_name@, batch_size_text@) {
            Ok(n) => r == Ok::<usize, String>(n),
            Err(m) => r matches Err(e) && e@ == m,
        },
{
    if file_count == 0 {
        return Err(String::from_str("请先选择文件"));
    }
    if is_blank(index_name) {
        return Err(String::from_str("请输入索引名称"));
    }
    match parse_usize(batch_size_text) {
        Some(n) => {
            if n > 0 {
                Ok(n)
            } else {
                Err(String::from_str("批次大小必须是正整数"))
            }
        },
        None => Err(String::from_str("批次大小必须是正整数")),
    }
}

/// Text of an optional string.
pub open spec fn opt_text_view(o: Option<String>) -> Option<Seq<char>> {
    match o {
        Some(s) => Some(s@),
        None => None,
    }
}

/// An optional setting: `None` when empty.
pub open spec fn optional_text(s: Seq<char>) -> Option<Seq<char>> {
    if s.len() == 0 {
        None
    } else {
        Some(s)
    }
}

/// The configuration of an import from the form's values: empty user name
/// or password means none, and records are limited to 100 MiB.
pub fn build_import_config(
    address: &str,
    username: &str,
    password: &str,
    index_name: &str,
    batch_size: usize,
    files: Vec<PathBuf>,
    delimiter: Delimiter,
) -> (c: ImportConfig)
    ensures
        c.es_config.address@ == address@,
        opt_text_view(c.es_config.username) == optional_text(username@),
        opt_text_view(c.es_config.password) == optional_text(password@),
        c.es_config.index_name@ == index_name@,
        c.es_config.batch_size == batch_size,
        c.files == files,
        c.delimiter == delimiter,
        c.max_record_size == 100 * 1024 * 1024,
{
    let user = if username.is_empty() {
        None
    } else {
        Some(String::from_str(username))
    };
    let pass = if password.is_empty() {
        None
    } else {
        Some(String::from_str(password))
    };
    ImportConfig {
        es_config: EsConfig {
            address: String::from_str(address),
            username: user,
            password: pass,
            index_name: String::from_str(index_name),
            batch_size,
        },
        files,
        delimiter,
        max_record_size: DEFAULT_MAX_RECORD_SIZE,
    }
}

} // verus!
