//! Activity-log primitives: severity levels, log entries, and key masking.

use vstd::prelude::*;

verus! {

/// Severity level of an activity-log entry.
#[derive(Clone, Debug)]
pub enum LogLevel {
    Info,
    Warn,
    Error,
}

impl LogLevel {
    /// Short uppercase label for display.
    pub fn label(&self) -> (r: &'static str)
        ensures
            self is Info ==> r@ == "INFO"@,
            self is Warn ==> r@ == "WARN"@,
            self is Error ==> r@ == "ERROR"@,
    {
        match self {
            LogLevel::Info => "INFO",
            LogLevel::Warn => "WARN",
            LogLevel::Error => "ERROR",
        }
    }
}

/// The body of a log entry: a plain single-line message, or markdown content
/// from a model response together with the label shown above it.
#[derive(Clone, Debug)]
pub enum LogContent {
    Plain(String),
    Markdown { label: String, body: String },
}

/// A single timestamped entry in the activity log.
#[derive(Clone, Debug)]
pub struct LogLine {
    pub timestamp: String,
    pub level: LogLevel,
    pub content: LogContent,
}

/// The most entries the activity log keeps.
pub const MAX_LOGS: usize = 1000;

/// Append one entry to the activity log, dropping the oldest entries when
/// the log would grow past its cap, so the last `MAX_LOGS` entries are
/// kept.
pub fn push_log(logs: &mut Vec<LogLine>, line: LogLine)
    requires
        old(logs)@.len() <= MAX_LOGS,
    ensures
        final(logs)@.len() <= MAX_LOGS,
        ({
            let grown = old(logs)@.push(line);
            final(logs)@ == (if grown.len() <= MAX_LOGS {
                grown
            } else {
                grown.subrange(grown.len() - MAX_LOGS, grown.len() as int)
            })
        }),
{
    let ghost grown = logs@.push(line);
    logs.push(line);
    if logs.len() > MAX_LOGS {
        let _ = logs.remove(0);
        proof {
            assert(logs@ =~= grown.subrange(grown.len() - MAX_LOGS, grown.len() as int));
        }
    }
}

/// The view of a masked key: three asterisks followed by the final
/// `min(4, len)` characters of the input.
pub open spec fn spec_mask_key(key: Seq<char>) -> Seq<char> {
    let keep: int = if key.len() >= 4 {
        4
    } else {
        key.len() as int
    };
    "***"@ + key.subrange(key.len() - keep, key.len() as int)
}

/// Mask a secret, keeping only its last four characters visible.
pub fn mask_key(key: &str) -> (r: String)
    ensures
        r@ == spec_mask_key(key@),
{
    let n = key.unicode_len();
    let keep: usize = if n >= 4 {
        4
    } else {
        n
    };
    let suffix = key.substring_char(n - keep, n);
    let mut out = String::from_str("***");
    out.append(suffix);
    out
}

} // verus!
