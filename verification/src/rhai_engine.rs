//! The Core1 script runner as a state machine: the firmware starts the
//! engine, mounts and runs the script and dumps the log ring, and hands each
//! outcome back here; this decides what to do next and what to log.

use vstd::prelude::*;
use crate::logging::{LogLevel, LogRecord};

verus! {

/// Where the runner stands.
#[derive(Clone, Copy, PartialEq, Eq, Structural, Debug)]
pub enum RunState {
    Starting,
    InitEngine,
    Mount,
    Eval,
    Dump,
    Done,
}

/// What the firmware reports back to the runner.
pub enum RunEvent {
    Started,
    EngineReady,
    EngineFailed(String),
    /// The script was read; its text.
    ScriptMounted(String),
    MountFailed(String),
    ScriptCompleted,
    ScriptFailed(String),
    Dumped(String),
}

/// What the firmware is to do next.
#[derive(PartialEq, Eq, Debug)]
pub enum RunAction {
    InitEngine,
    /// Read the script of this name from the file system.
    MountScript(&'static str),
    /// Evaluate this script text with the engine and its scope.
    EvalScript(String),
    DumpBuffer,
    Stop,
}

/// The script that the runner mounts and runs.
pub open spec fn script_name() -> &'static str {
    "test_log.rhai"
}

/// Whether `a` is the evaluation of exactly the script text `text`.
pub open spec fn is_eval(a: RunAction, text: Seq<char>) -> bool {
    match a {
        RunAction::EvalScript(t) => t@ == text,
        _ => false,
    }
}

/// Whether `o` is the record at `level` with `prefix` and `text`.
pub open spec fn is_record(o: Option<LogRecord>, level: LogLevel, prefix: &'static str, text: Seq<
    char,
>) -> bool {
    match o {
        Some(r) => r.level == level && r.prefix == prefix && r.text@ == text,
        None => false,
    }
}

/// A record with a fixed prefix and the given text.
fn record(level: LogLevel, prefix: &'static str, text: &str) -> (r: LogRecord)
    ensures
        r.level == level,
        r.prefix == prefix,
        r.text@ == text@,
{
    LogRecord { level, prefix, text: String::from_str(text) }
}

/// One step of the runner: from the state and the reported outcome, the next
/// state, the next action and the record to log.
/// - starting: log `[Core1] Rhai engine starting...`, start the engine;
/// - the engine failed: log `Failed to init Rhai: <error>` and stop;
/// - the engine is ready: mount the script `test_log.rhai`;
/// - mounted: log `[Core1] Running test script...` and evaluate exactly the
///   mounted text;
/// - the mount failed: log `[Core1] Script mount error: <error>`, then dump;
/// - the script completed: log `[Core1] Script completed`, then dump;
/// - the script failed: log `[Core1] Script error: <error>`, then dump;
/// - dumped: log `[Core1] Log buffer dump:\n<dump>` unless the dump is empty,
///   and stop;
/// - any other report in any state stops the runner without a record.
pub fn run_step(state: RunState, event: &RunEvent) -> (out: (RunState, RunAction, Option<LogRecord>))
    ensures
        match (state, event) {
            (RunState::Starting, RunEvent::Started) => out.0 == RunState::InitEngine && out.1
                == RunAction::InitEngine && is_record(out.2, LogLevel::Info, "[Core1] Rhai engine starting...", Seq::empty()),
            (RunState::InitEngine, RunEvent::EngineFailed(e)) => out.0 == RunState::Done && out.1
                == RunAction::Stop && is_record(out.2, LogLevel::Error, "Failed to init Rhai: ", e@),
            (RunState::InitEngine, RunEvent::EngineReady) => out.0 == RunState::Mount && out.1
                == RunAction::MountScript(script_name()) && out.2 is None,
            (RunState::Mount, RunEvent::ScriptMounted(t)) => out.0 == RunState::Eval && is_eval(
                out.1,
                t@,
            ) && is_record(out.2, LogLevel::Info, "[Core1] Running test script...", Seq::empty()),
            (RunState::Mount, RunEvent::MountFailed(e)) => out.0 == RunState::Dump && out.1
                == RunAction::DumpBuffer && is_record(out.2, LogLevel::Error, "[Core1] Script mount error: ", e@),
            (RunState::Eval, RunEvent::ScriptCompleted) => out.0 == RunState::Dump && out.1
                == RunAction::DumpBuffer && is_record(out.2, LogLevel::Info, "[Core1] Script completed", Seq::empty()),
            (RunState::Eval, RunEvent::ScriptFailed(e)) => out.0 == RunState::Dump && out.1
                == RunAction::DumpBuffer && is_record(out.2, LogLevel::Error, "[Core1] Script error: ", e@),
            (RunState::Dump, RunEvent::Dumped(d)) => out.0 == RunState::Done && out.1
                == RunAction::Stop && (if d@.len() == 0 {
                out.2 is None
            } else {
                is_record(out.2, LogLevel::Info, "[Core1] Log buffer dump:\n", d@)
            }),
            _ => out.0 == RunState::Done && out.1 == RunAction::Stop && out.2 is None,
        },
{
    match (state, event) {
        (RunState::Starting, RunEvent::Started) => (
            RunState::InitEngine,
            RunAction::InitEngine,
            Some(LogRecord { level: LogLevel::Info, prefix: "[Core1] Rhai engine starting...", text: String::new() }),
        ),
        (RunState::InitEngine, RunEvent::EngineFailed(e)) => (
            RunState::Done,
            RunAction::Stop,
            Some(record(LogLevel::Error, "Failed to init Rhai: ", e.as_str())),
        ),
        (RunState::InitEngine, RunEvent::EngineReady) => (
            RunState::Mount,
            RunAction::MountScript("test_log.rhai"),
            None,
        ),
        (RunState::Mount, RunEvent::ScriptMounted(t)) => (
            RunState::Eval,
            RunAction::EvalScript(t.clone()),
            Some(LogRecord { level: LogLevel::Info, prefix: "[Core1] Running test script...", text: String::new() }),
        ),
        (RunState::Mount, RunEvent::MountFailed(e)) => (
            RunState::Dump,
            RunAction::DumpBuffer,
            Some(record(LogLevel::Error, "[Core1] Script mount error: ", e.as_str())),
        ),
        (RunState::Eval, RunEvent::ScriptCompleted) => (
            RunState::Dump,
            RunAction::DumpBuffer,
            Some(LogRecord { level: LogLevel::Info, prefix: "[Core1] Script completed", text: String::new() }),
        ),
        (RunState::Eval, RunEvent::ScriptFailed(e)) => (
            RunState::Dump,
            RunAction::DumpBuffer,
            Some(record(LogLevel::Error, "[Core1] Script error: ", e.as_str())),
        ),
        (RunState::Dump, RunEvent::Dumped(d)) => {
            if d.as_str().is_empty() {
                (RunState::Done, RunAction::Stop, None)
            } else {
                (
                    RunState::Done,
                    RunAction::Stop,
                    Some(record(LogLevel::Info, "[Core1] Log buffer dump:\n", d.as_str())),
                )
            }
        },
        _ => (RunState::Done, RunAction::Stop, None),
    }
}

} // verus!
