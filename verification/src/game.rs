//! The game process: whether it may be launched, whether it is running, and
//! the bounded log of what it printed.

use vstd::prelude::*;

use crate::text::concat_strs;

verus! {

/// The log keeps at most this many lines.
pub const LOG_LIMIT: usize = 1000;

/// When the log outgrows its limit, this many of the newest lines are kept.
pub const LOG_KEEP: usize = 800;

/// What is known of the game process started last.
#[derive(Debug, Clone, Copy, PartialEq, Eq)]
pub enum ChildStatus {
    /// No game process has been started, or it was forgotten.
    NoChild,
    /// The process is still running.
    Running,
    /// The process has exited.
    Exited,
    /// Asking the operating system about the process failed.
    WaitFailed,
}

/// The log after `line` is appended: when it then holds more than
/// `LOG_LIMIT` lines, only the newest `LOG_KEEP` are kept.
pub open spec fn log_after_push<T>(log: Seq<T>, line: T) -> Seq<T> {
    let pushed = log.push(line);
    if pushed.len() > LOG_LIMIT {
        pushed.skip(pushed.len() - LOG_KEEP)
    } else {
        pushed
    }
}

/// A line of the log: the stream's label in brackets, then the text.
pub open spec fn log_line_spec(label: Seq<char>, text: Seq<char>) -> Seq<char> {
    "["@ + label + "] "@ + text
}

/// A line of the log: the stream's label in brackets, then the text
/// (e.g. `[STDOUT] loading`).
pub fn format_log_line(label: &str, text: &str) -> (res: String)
    ensures
        res@ == log_line_spec(label@, text@),
{
    let a = concat_strs("[", label);
    let b = concat_strs(a.as_str(), "] ");
    concat_strs(b.as_str(), text)
}

/// Appends a line to the log; when the log then holds more than
/// `LOG_LIMIT` lines, only the newest `LOG_KEEP` are kept.
pub fn push_log_line(log: &mut Vec<String>, line: String)
    ensures
        final(log)@ == log_after_push(old(log)@, line),
        final(log).len() <= LOG_LIMIT,
        final(log)@.last() == line,
        final(log).len() == if old(log).len() < LOG_LIMIT {
            old(log).len() + 1
        } else {
            LOG_KEEP as int
        },
        forall|i: int|
            0 <= i < final(log).len() ==> #[trigger] final(log)@[i] == old(log)@.push(line)[old(
                log,
            ).len() + 1 - final(log).len() + i],
{
    log.push(line);
    if log.len() > LOG_LIMIT {
        let drain = log.len() - LOG_KEEP;
        let kept = log.split_off(drain);
        *log = kept;
    }
}

/// Whether a launch may go ahead given what is known of the previous
/// process: an error while it is still running; otherwise whether the
/// previous process is to be forgotten first.
pub fn launch_decision(status: ChildStatus) -> (res: Result<bool, String>)
    ensures
        res is Err <==> status == ChildStatus::Running,
        res matches Err(msg) ==> msg@ == "Game is already running"@,
        res matches Ok(forget) ==> (forget <==> (status == ChildStatus::Exited || status
            == ChildStatus::WaitFailed)),
{
    match status {
        ChildStatus::NoChild => Ok(false),
        ChildStatus::Running => Err("Game is already running".to_owned()),
        ChildStatus::Exited => Ok(true),
        ChildStatus::WaitFailed => Ok(true),
    }
}

/// Whether the game is running, and whether the previous process is to be
/// forgotten: it is when it has exited or cannot be asked about.
pub open spec fn running_decision_spec(status: ChildStatus) -> (bool, bool) {
    match status {
        ChildStatus::NoChild => (false, false),
        ChildStatus::Running => (true, false),
        ChildStatus::Exited => (false, true),
        ChildStatus::WaitFailed => (false, true),
    }
}

/// What is known of the process after a running-check: nothing, when the
/// check forgot it.
pub open spec fn status_after_check(status: ChildStatus) -> ChildStatus {
    if running_decision_spec(status).1 {
        ChildStatus::NoChild
    } else {
        status
    }
}

/// Once a running-check says the game is not running, no process is kept,
/// and a second check says again that it is not running and keeps none.
pub proof fn lemma_not_running_is_stable(status: ChildStatus)
    ensures
        !running_decision_spec(status).0 ==> status_after_check(status) == ChildStatus::NoChild,
        !running_decision_spec(status).0 ==> running_decision_spec(status_after_check(status)) == (
        false,
        false,
        ),
{
}

/// Whether the game is running, and whether the previous process is to be
/// forgotten: it is when it has exited or cannot be asked about.
pub fn running_decision(status: ChildStatus) -> (res: (bool, bool))
    ensures
        res == running_decision_spec(status),
        res.0 <==> status == ChildStatus::Running,
        res.1 <==> (status == ChildStatus::Exited || status == ChildStatus::WaitFailed),
{
    match status {
        ChildStatus::NoChild => (false, false),
        ChildStatus::Running => (true, false),
        ChildStatus::Exited => (false, true),
        ChildStatus::WaitFailed => (false, true),
    }
}

} // verus!
