//! Deciding what to tell the user, and the exit code.
use crate::report::{CombinedReport, Level, combined_text};
use vstd::prelude::*;

verus! {

/// Reports to standard error, unless quiet; remembers whether any error was reported.
/// It decides what to print; the caller prints the lines it hands back.
pub struct StdoutReporter {
    quiet: bool,
    errored: bool,
}

impl View for StdoutReporter {
    /// Whether it is quiet, and whether an error has been reported.
    type V = (bool, bool);

    closed spec fn view(&self) -> (bool, bool) {
        (self.quiet, self.errored)
    }
}

impl StdoutReporter {
    /// A reporter that has reported no error yet.
    pub fn new(quiet: bool) -> (res: StdoutReporter)
        ensures
            res@ == (quiet, false),
    {
        StdoutReporter { quiet, errored: false }
    }

    /// A message to show as information: handed back unless quiet.
    pub fn info(&self, message: String) -> (res: Option<String>)
        ensures
            match res {
                Some(m) => !self@.0 && m@ == message@,
                None => self@.0,
            },
    {
        if !self.quiet { Some(message) } else { None }
    }

    /// A message to show as a warning: handed back unless quiet.
    pub fn warning(&mut self, message: String) -> (res: Option<String>)
        ensures
            final(self)@ == old(self)@,
            match res {
                Some(m) => !old(self)@.0 && m@ == message@,
                None => old(self)@.0,
            },
    {
        if !self.quiet { Some(message) } else { None }
    }

    /// A message to show as an error: handed back unless quiet; the reporter now has
    /// reported an error.
    pub fn error(&mut self, message: String) -> (res: Option<String>)
        ensures
            final(self)@ == (old(self)@.0, true),
            match res {
                Some(m) => !old(self)@.0 && m@ == message@,
                None => old(self)@.0,
            },
    {
        self.errored = true;
        if !self.quiet { Some(message) } else { None }
    }

    /// A combined report, shown at its level: its text handed back with the level unless
    /// quiet; an error level counts as a reported error.
    pub fn report(&mut self, report: &CombinedReport) -> (res: Option<(Level, String)>)
        ensures
            final(self)@ == (old(self)@.0, old(self)@.1 || report.level == Level::Error),
            match res {
                Some((level, m)) => !old(self)@.0 && level == report.level && m@ == combined_text(report@),
                None => old(self)@.0,
            },
    {
        let text = report.to_text();
        let shown = match report.level {
            Level::Info => self.info(text),
            Level::Warning => self.warning(text),
            Level::Error => self.error(text),
        };
        match shown {
            Some(m) => Some((report.level, m)),
            None => None,
        }
    }

    /// Whether an error has been reported.
    pub fn errored(&self) -> (res: bool)
        ensures
            res == self@.1,
    {
        self.errored
    }

    /// The process exit code: 1 (failure) once an error has been reported, else 0.
    pub fn exit_code(&self) -> (res: u8)
        ensures
            res == (if self@.1 { 1u8 } else { 0u8 }),
    {
        if self.errored { 1 } else { 0 }
    }
}

/// A call on a reporter: `info`, `warning` or `error` with some message, or `report` of
/// a combined report at some level.
pub enum ReporterCall {
    Info,
    Warning,
    Error,
    Report(Level),
}

/// Whether a call marks the run as failed: an error, or a report at the error level.
pub open spec fn fails_run(c: ReporterCall) -> bool {
    match c {
        ReporterCall::Error => true,
        ReporterCall::Report(level) => level == Level::Error,
        _ => false,
    }
}

/// The state of a reporter after these calls in turn, each as its own contract states
/// it: `info` and `warning` change nothing, `error` marks an error, `report` marks one
/// where its level is the error level.
pub open spec fn state_after(start: (bool, bool), calls: Seq<ReporterCall>) -> (bool, bool)
    decreases calls.len(),
{
    if calls.len() == 0 {
        start
    } else {
        let before = state_after(start, calls.drop_last());
        (before.0, before.1 || fails_run(calls.last()))
    }
}

/// A new reporter fails the run (its exit code is 1) exactly when one of the calls made
/// on it was an error or a report at the error level; whether it is quiet plays no part,
/// and once failed it stays failed.
pub proof fn lemma_exit_code_reflects_errors(quiet: bool, calls: Seq<ReporterCall>)
    ensures
        state_after((quiet, false), calls).0 == quiet,
        state_after((quiet, false), calls).1 <==> exists|i: int| 0 <= i < calls.len() && fails_run(#[trigger] calls[i]),
    decreases calls.len(),
{
    if calls.len() > 0 {
        let front = calls.drop_last();
        lemma_exit_code_reflects_errors(quiet, front);
        if exists|i: int| 0 <= i < front.len() && fails_run(#[trigger] front[i]) {
            let i = choose|i: int| 0 <= i < front.len() && fails_run(#[trigger] front[i]);
            assert(calls[i] == front[i]);
        }
        if exists|i: int| 0 <= i < calls.len() && fails_run(#[trigger] calls[i]) {
            let i = choose|i: int| 0 <= i < calls.len() && fails_run(#[trigger] calls[i]);
            if i < front.len() {
                assert(front[i] == calls[i]);
            }
        }
        if fails_run(calls.last()) {
            assert(fails_run(calls[calls.len() - 1]));
        }
    }
}

/// Once a reporter has failed the run, further calls keep it failed.
pub proof fn lemma_failure_stays(start: (bool, bool), calls: Seq<ReporterCall>)
    requires
        start.1,
    ensures
        state_after(start, calls).1,
    decreases calls.len(),
{
    if calls.len() > 0 {
        lemma_failure_stays(start, calls.drop_last());
    }
}

} // verus!
