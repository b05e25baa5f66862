//! Log records kept for the log panel.
//!
//! Each record is printed as one line and kept in a list for the panel; the
//! list is held to at most a thousand records by dropping the oldest
//! hundred when it grows past that.
use crate::common::text::{chars_of, string_of};
use crate::gui::localization::LocalizationManager;
use vstd::prelude::*;

verus! {

/// The most records kept.
pub const MAX_LOG_RECORDS: usize = 1000;

/// How many of the oldest records are dropped when there are too many.
pub const LOG_RECORDS_DROPPED: usize = 100;

/// The severity of a record, most severe first.
#[derive(Debug, Clone, Copy, PartialEq, Eq, Structural)]
pub enum LogLevel {
    /// An error.
    Error,
    /// A warning.
    Warn,
    /// Information.
    Info,
    /// Detail for debugging.
    Debug,
    /// Fine-grained tracing.
    Trace,
}

/// The rank of a level: 1 for the most severe, 5 for the least.
pub open spec fn level_rank(l: LogLevel) -> int {
    match l {
        LogLevel::Error => 1,
        LogLevel::Warn => 2,
        LogLevel::Info => 3,
        LogLevel::Debug => 4,
        LogLevel::Trace => 5,
    }
}

/// How a level is printed.
pub open spec fn level_name(l: LogLevel) -> Seq<char> {
    match l {
        LogLevel::Error => "ERROR"@,
        LogLevel::Warn => "WARN"@,
        LogLevel::Info => "INFO"@,
        LogLevel::Debug => "DEBUG"@,
        LogLevel::Trace => "TRACE"@,
    }
}

/// One logged message.
#[derive(Debug)]
pub struct LogRecord {
    /// When it was logged.
    pub timestamp: String,
    /// Its severity.
    pub level: LogLevel,
    /// The module that logged it.
    pub target: String,
    /// The message.
    pub args: String,
}

/// Whether a record of level `level` is kept by a logger that keeps up to
/// `max`.
pub fn enabled(level: LogLevel, max: LogLevel) -> (r: bool)
    ensures
        r == (level_rank(level) <= level_rank(max)),
{
    rank(level) <= rank(max)
}

fn rank(l: LogLevel) -> (r: u8)
    ensures
        r == level_rank(l),
{
    match l {
        LogLevel::Error => 1,
        LogLevel::Warn => 2,
        LogLevel::Info => 3,
        LogLevel::Debug => 4,
        LogLevel::Trace => 5,
    }
}

/// How the level `l` is printed.
pub fn level_text(l: LogLevel) -> (r: String)
    ensures
        r@ == level_name(l),
{
    match l {
        LogLevel::Error => "ERROR".to_owned(),
        LogLevel::Warn => "WARN".to_owned(),
        LogLevel::Info => "INFO".to_owned(),
        LogLevel::Debug => "DEBUG".to_owned(),
        LogLevel::Trace => "TRACE".to_owned(),
    }
}

/// The line a record is printed as: `timestamp [LEVEL] target - message`.
pub open spec fn log_line_of(r: LogRecord) -> Seq<char> {
    r.timestamp@ + " ["@ + level_name(r.level) + "] "@ + r.target@ + " - "@ + r.args@ + "\n"@
}

fn append(out: &mut Vec<char>, s: &str)
    ensures
        final(out)@ == old(out)@ + s@,
{
    let v = chars_of(s);
    let mut i: usize = 0;
    while i < v.len()
        invariant
            v@ == s@,
            i <= v@.len(),
            out@ == old(out)@ + v@.take(i as int),
        decreases v.len() - i,
    {
        out.push(v[i]);
        i = i + 1;
        assert(out@ =~= old(out)@ + v@.take(i as int));
    }
    assert(v@.take(i as int) =~= v@);
}

/// The line a record is printed as.
pub fn log_line(record: &LogRecord) -> (r: String)
    ensures
        r@ == log_line_of(*record),
{
    let mut out: Vec<char> = Vec::new();
    append(&mut out, record.timestamp.as_str());
    append(&mut out, " [");
    append(&mut out, level_text(record.level).as_str());
    append(&mut out, "] ");
    append(&mut out, record.target.as_str());
    append(&mut out, " - ");
    append(&mut out, record.args.as_str());
    append(&mut out, "\n");
    assert(out@ =~= log_line_of(*record));
    string_of(out.as_slice())
}

/// The records kept after `record` was added to `records`: all of them,
/// the new one last, except the oldest hundred when there are more than a
/// thousand.
pub open spec fn kept_records(records: Seq<LogRecord>, record: LogRecord) -> Seq<LogRecord> {
    let all = records.push(record);
    if all.len() > MAX_LOG_RECORDS {
        all.skip(LOG_RECORDS_DROPPED as int)
    } else {
        all
    }
}

/// Adds a record to the kept records, dropping the oldest hundred when
/// there are more than a thousand.
pub fn push_record(records: &mut Vec<LogRecord>, record: LogRecord)
    ensures
        final(records)@ == kept_records(old(records)@, record),
        old(records)@.len() <= MAX_LOG_RECORDS ==> final(records)@.len() <= MAX_LOG_RECORDS,
        final(records)@.last() == record,
{
    records.push(record);
    if records.len() > MAX_LOG_RECORDS {
        let rest = records.split_off(LOG_RECORDS_DROPPED);
        *records = rest;
    }
}


/// How the log panel writes a level.
pub open spec fn level_label(l: LogLevel) -> Seq<char> {
    match l {
        LogLevel::Error => "Error"@,
        LogLevel::Warn => "Warn"@,
        LogLevel::Info => "Info"@,
        LogLevel::Debug => "Debug"@,
        LogLevel::Trace => "Trace"@,
    }
}

/// The cells of the log panel's row for a record: time, level, target and
/// message.
pub open spec fn row_of(r: LogRecord) -> (Seq<char>, Seq<char>, Seq<char>, Seq<char>) {
    (r.timestamp@, level_label(r.level), r.target@, r.args@)
}

/// The rows of the log panel, newest record first.
pub fn log_rows(records: &[LogRecord]) -> (r: Vec<(String, String, String, String)>)
    ensures
        r@.len() == records@.len(),
        forall|i: int| 0 <= i < r@.len() ==> ((#[trigger] r@[i]).0@, r@[i].1@, r@[i].2@, r@[i].3@)
            == row_of(records@[records@.len() - 1 - i]),
{
    let n = records.len();
    let mut rows: Vec<(String, String, String, String)> = Vec::new();
    let mut i: usize = 0;
    while i < n
        invariant
            n == records@.len(),
            i <= n,
            rows@.len() == i,
            forall|k: int| 0 <= k < i ==> ((#[trigger] rows@[k]).0@, rows@[k].1@, rows@[k].2@, rows@[k].3@)
                == row_of(records@[n - 1 - k]),
        decreases n - i,
    {
        let record = &records[n - 1 - i];
        let label = match record.level {
            LogLevel::Error => "Error".to_owned(),
            LogLevel::Warn => "Warn".to_owned(),
            LogLevel::Info => "Info".to_owned(),
            LogLevel::Debug => "Debug".to_owned(),
            LogLevel::Trace => "Trace".to_owned(),
        };
        rows.push((record.timestamp.clone(), label, record.target.clone(), record.args.clone()));
        i = i + 1;
    }
    rows
}

/// A row of the log panel that shows only `text` in its time column.
pub open spec fn placeholder_row(text: Seq<char>) -> (Seq<char>, Seq<char>, Seq<char>, Seq<char>) {
    (text, Seq::empty(), Seq::empty(), Seq::empty())
}

/// The rows of the log panel's table: with no logger (`None`) a single row
/// saying that logging is not set up, with no records a single row holding
/// the empty-log text, and otherwise one row per record, newest first.
/// The two texts are translated by `manager`.
pub fn log_panel_rows(records: Option<&[LogRecord]>, manager: &LocalizationManager)
    -> (r: Vec<(String, String, String, String)>)
    ensures
        records is None ==> r@.len() == 1
            && (r@[0].0@, r@[0].1@, r@[0].2@, r@[0].3@) == placeholder_row(manager.translate("log_system_not_initialized"@)),
        records matches Some(rs) ==> (rs@.len() == 0 ==> r@.len() == 1
            && (r@[0].0@, r@[0].1@, r@[0].2@, r@[0].3@) == placeholder_row(manager.translate("temporary_log"@))),
        records matches Some(rs) ==> (rs@.len() > 0 ==> r@.len() == rs@.len()
            && forall|i: int| 0 <= i < r@.len() ==> ((#[trigger] r@[i]).0@, r@[i].1@, r@[i].2@, r@[i].3@)
                == row_of(rs@[rs@.len() - 1 - i])),
{
    match records {
        None => {
            let text = manager.t("log_system_not_initialized");
            vec![(text, String::new(), String::new(), String::new())]
        },
        Some(rs) => {
            if rs.len() == 0 {
                let text = manager.t("temporary_log");
                vec![(text, String::new(), String::new(), String::new())]
            } else {
                log_rows(rs)
            }
        },
    }
}

/// Empties the kept records.
pub fn clear_log_records(records: &mut Vec<LogRecord>)
    ensures
        final(records)@.len() == 0,
{
    records.clear();
}

} // verus!
