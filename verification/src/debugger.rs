//! The debugging session: one breakpoint table, the symbols of the target,
//! and at most one live traced process.
//!
//! The session decides; it neither reads commands nor prints. Each command
//! is answered with a list of reports for the front end to show. Starting
//! the target is the one thing the session cannot do itself: a `run`
//! command is answered with a request to launch, and the front end hands
//! the started process to [`Debugger::attach`].

use crate::backtrace::{backtrace, backtrace_model, ends_at_entry, BacktraceError, StackFrame};
use crate::breakpoints::{same_addresses, slot_of, Breakpoint, BreakpointTable, Slot};
use crate::command::{
    location_of, parse_break_location, BreakLocation, DebuggerCommand, LocationModel,
};
use crate::control::{
    all_armed, launch, launch_model, law_launch_settles, law_wake_up_settles, wake_up,
    wake_up_model, LaunchError,
};
use crate::process::{follows, patch_byte, ProcessController, ProcessModel};
use crate::status::{ControlError, Status};
use crate::symbols::{SourceLine, SymbolTable, Symbols};
use crate::word::TRAP_OPCODE;
use vstd::prelude::*;

verus! {

/// One thing that the session tells the operator, or asks of the front end.
#[derive(Clone, Debug, PartialEq, Eq)]
pub enum Report {
    /// The live process with this identifier was killed.
    Killed(i32),
    /// Killing the live process failed; the session has let go of it all
    /// the same.
    KillFailed(ControlError),
    /// The front end is to start the target under trace with these
    /// arguments and to attach the new process.
    Launch(Vec<String>),
    /// The new process could not be taken over. No process is live.
    LaunchFailed(LaunchError),
    /// The process stopped on this signal at this program counter.
    Stopped { signal: i32, pc: usize },
    /// The source line at which the process stopped.
    StoppedAt(SourceLine),
    /// The symbols do not cover the address at which the process stopped.
    Unresolved(usize),
    /// The process exited with this code. No process is live.
    Exited(i32),
    /// The process was ended by this signal. No process is live.
    Signaled(i32),
    /// The command needs a live process and there is none.
    NoInferior,
    /// Resuming the process failed.
    ResumeFailed(ControlError),
    /// The system reported a change of the process that is neither a
    /// stop, an exit nor a termination. The session cannot go on: the
    /// front end is to end it.
    UnexpectedState,
    /// The call stack, innermost frame first.
    Stack(Vec<StackFrame>),
    /// The call stack could not be walked to its end.
    BacktraceFailed(BacktraceError),
    /// What follows `*` in a breakpoint location is no address.
    BadAddress,
    /// No code is known for this line number.
    UnknownLine(usize),
    /// No function of the given name is known.
    UnknownFunction,
    /// A breakpoint was added: its position in the table and its address.
    BreakpointSet { index: usize, address: usize },
    /// The table holds a breakpoint at this address already.
    BreakpointExists(usize),
    /// The trap could not be written into the live process; no breakpoint
    /// was added.
    BreakpointFailed { address: usize, error: ControlError },
    /// The session is over.
    Quit,
}

/// A debugging session over processes of type `P`.
pub struct Debugger<P: ProcessController> {
    inferior: Option<P>,
    break_points: BreakpointTable,
    debug_data: SymbolTable,
}

/// What is reported of a state change: for a stop, the signal and the
/// source line of the program counter, or that no line is known for it; for
/// an exit or a termination, its cause.
pub open spec fn status_reports(symbols: Symbols, status: Status) -> Seq<Report> {
    match status {
        Status::Stopped(signal, pc) => match symbols.resolve_line(pc) {
            Some(line) => seq![Report::Stopped { signal, pc }, Report::StoppedAt(line)],
            None => seq![Report::Stopped { signal, pc }, Report::Unresolved(pc)],
        },
        Status::Exited(code) => seq![Report::Exited(code)],
        Status::Signaled(signal) => seq![Report::Signaled(signal)],
    }
}

/// What is reported of a failure to control the process while it was
/// resumed: a change of state that is none known ends the session and has a
/// report of its own; a refusal is reported as a failure to resume.
pub open spec fn failure_report(error: ControlError) -> Report {
    match error {
        ControlError::UnexpectedState => Report::UnexpectedState,
        _ => Report::ResumeFailed(error),
    }
}

/// What is reported of an attempt to resume: the state change, or the
/// failure.
pub open spec fn resume_reports(symbols: Symbols, outcome: Result<Status, ControlError>) -> Seq<
    Report,
> {
    match outcome {
        Ok(status) => status_reports(symbols, status),
        Err(e) => seq![failure_report(e)],
    }
}

/// What is reported of a launch that failed: a change of state that is
/// none known ends the session and has a report of its own; any other
/// failure is reported as a failed launch.
pub open spec fn launch_report(error: LaunchError) -> Report {
    match error {
        LaunchError::Wait(ControlError::UnexpectedState) => Report::UnexpectedState,
        _ => Report::LaunchFailed(error),
    }
}

/// What is reported of taking over a process, given the outcome of its
/// launch and, after a launch that succeeded, of waking it.
pub open spec fn attach_reports(
    symbols: Symbols,
    first: Result<Status, LaunchError>,
    outcome: Result<Status, ControlError>,
) -> Seq<Report> {
    match first {
        Err(e) => seq![launch_report(e)],
        Ok(_) => resume_reports(symbols, outcome),
    }
}

/// Whether a process stays live after an attempt to resume it: it does
/// unless it exited or was terminated.
pub open spec fn stays_live(outcome: Result<Status, ControlError>) -> bool {
    match outcome {
        Ok(status) => status is Stopped,
        Err(_) => true,
    }
}

/// What is reported of killing the process `pid`.
pub open spec fn kill_reports(pid: i32, done: Result<(), ControlError>) -> Seq<Report> {
    match done {
        Ok(()) => seq![Report::Killed(pid)],
        Err(e) => seq![Report::Killed(pid), Report::KillFailed(e)],
    }
}

/// The address that a breakpoint location stands for, or the report of
/// why it stands for none.
pub open spec fn break_address(symbols: Symbols, location: Option<LocationModel>) -> Result<
    usize,
    Report,
> {
    match location {
        None => Err(Report::BadAddress),
        Some(LocationModel::Address(address)) => Ok(address),
        Some(LocationModel::Line(number)) => match symbols.address_for_line(number) {
            Some(address) => Ok(address),
            None => Err(Report::UnknownLine(number)),
        },
        Some(LocationModel::Function(name)) => match symbols.address_for_function(name) {
            Some(address) => Ok(address),
            None => Err(Report::UnknownFunction),
        },
    }
}

/// The slot of a new breakpoint, given the outcome of writing its trap
/// into the live process (`None` while no process is live); `None` if the
/// trap could not be written.
pub open spec fn new_slot(patched: Option<Result<u8, ControlError>>) -> Option<Slot> {
    match patched {
        None => Some(Slot::Pending),
        Some(Ok(displaced)) => Some(Slot::Armed(displaced)),
        Some(Err(_)) => None,
    }
}

/// The table after a breakpoint at the new address `address` has been
/// asked for.
pub open spec fn entries_with(
    entries: Seq<Breakpoint>,
    address: usize,
    patched: Option<Result<u8, ControlError>>,
) -> Seq<Breakpoint> {
    match new_slot(patched) {
        Some(slot) => entries.push(Breakpoint { address, slot }),
        None => entries,
    }
}

/// What is reported when a breakpoint at the new address `address` has
/// been asked for.
pub open spec fn new_breakpoint_report(
    entries: Seq<Breakpoint>,
    address: usize,
    patched: Option<Result<u8, ControlError>>,
) -> Report {
    match patched {
        Some(Err(error)) => Report::BreakpointFailed { address, error },
        _ => Report::BreakpointSet { index: entries.len() as usize, address },
    }
}

/// Writes the reports of a state change.
pub fn report_status(symbols: &SymbolTable, status: Status) -> (reports: Vec<Report>)
    ensures
        reports@ == status_reports(symbols@, status),
{
    let mut reports: Vec<Report> = Vec::new();
    match status {
        Status::Stopped(signal, pc) => {
            reports.push(Report::Stopped { signal, pc });
            match symbols.resolve_line(pc) {
                Some(line) => {
                    reports.push(Report::StoppedAt(line));
                },
                None => {
                    reports.push(Report::Unresolved(pc));
                },
            }
        },
        Status::Exited(code) => {
            reports.push(Report::Exited(code));
        },
        Status::Signaled(signal) => {
            reports.push(Report::Signaled(signal));
        },
    }
    assert(reports@ =~= status_reports(symbols@, status));
    reports
}

/// Writes the reports of an attempt to resume, and says whether the
/// process stays live.
pub fn report_resume(symbols: &SymbolTable, outcome: Result<Status, ControlError>) -> (answer: (
    Vec<Report>,
    bool,
))
    ensures
        answer.0@ == resume_reports(symbols@, outcome),
        answer.1 == stays_live(outcome),
{
    match outcome {
        Ok(status) => {
            let live = match status {
                Status::Stopped(_, _) => true,
                _ => false,
            };
            (report_status(symbols, status), live)
        },
        Err(e) => {
            let mut reports: Vec<Report> = Vec::new();
            reports.push(report_failure(e));
            assert(reports@ =~= seq![failure_report(e)]);
            (reports, true)
        },
    }
}

/// Writes the report of a failure to control the process while it was
/// resumed.
pub fn report_failure(error: ControlError) -> (report: Report)
    ensures
        report == failure_report(error),
{
    match error {
        ControlError::UnexpectedState => Report::UnexpectedState,
        _ => Report::ResumeFailed(error),
    }
}

/// Writes the report of a launch that failed.
pub fn report_launch_failure(error: LaunchError) -> (report: Report)
    ensures
        report == launch_report(error),
{
    match error {
        LaunchError::Wait(ControlError::UnexpectedState) => Report::UnexpectedState,
        _ => Report::LaunchFailed(error),
    }
}

/// Finds the address that a breakpoint location stands for.
pub fn locate(symbols: &SymbolTable, location: &Option<BreakLocation>) -> (address: Result<
    usize,
    Report,
>)
    ensures
        address == break_address(
            symbols@,
            match location {
                Some(l) => Some(l@),
                None => None,
            },
        ),
{
    match location {
        None => Err(Report::BadAddress),
        Some(BreakLocation::Address(address)) => Ok(*address),
        Some(BreakLocation::Line(number)) => match symbols.address_for_line(*number) {
            Some(address) => Ok(address),
            None => Err(Report::UnknownLine(*number)),
        },
        Some(BreakLocation::Function(name)) => match symbols.address_for_function(name.as_str()) {
            Some(address) => Ok(address),
            None => Err(Report::UnknownFunction),
        },
    }
}

/// Records a breakpoint at `address`, given the outcome of writing its
/// trap into the live process (`None` while no process is live). An address
/// that the table holds already is reported and not recorded again, and a
/// trap that could not be written is reported and leaves the table as it
/// is.
pub fn record_breakpoint(
    table: &mut BreakpointTable,
    address: usize,
    patched: Option<Result<u8, ControlError>>,
) -> (report: Report)
    ensures
        slot_of(old(table)@, address) is Some ==> final(table)@ == old(table)@ && report
            == Report::BreakpointExists(address),
        slot_of(old(table)@, address) is None ==> final(table)@ == entries_with(
            old(table)@,
            address,
            patched,
        ) && report == new_breakpoint_report(old(table)@, address, patched),
{
    if table.get(address).is_some() {
        return Report::BreakpointExists(address);
    }
    match patched {
        Some(Err(error)) => Report::BreakpointFailed { address, error },
        Some(Ok(displaced)) => {
            let index = table.len();
            let _ = table.insert(address);
            table.set_slot(index, Slot::Armed(displaced));
            assert(table@ =~= entries_with(old(table)@, address, patched));
            Report::BreakpointSet { index, address }
        },
        None => {
            let index = table.len();
            let _ = table.insert(address);
            Report::BreakpointSet { index, address }
        },
    }
}

impl<P: ProcessController> Debugger<P> {
    /// The live process, if there is one.
    pub closed spec fn inferior(&self) -> Option<P> {
        self.inferior
    }

    /// The breakpoints of the session.
    pub closed spec fn break_points(&self) -> Seq<Breakpoint> {
        self.break_points@
    }

    /// The symbols of the target.
    pub closed spec fn symbols(&self) -> Symbols {
        self.debug_data@
    }

    /// The identifier of the live process, if there is one.
    pub open spec fn live_pid(&self) -> Option<i32> {
        match self.inferior() {
            Some(process) => Some(process.spec_pid()),
            None => None,
        }
    }

    /// The model of the live process, if there is a live process and it
    /// has one.
    pub open spec fn live_model(&self) -> Option<ProcessModel> {
        match self.inferior() {
            Some(process) => process.model(),
            None => None,
        }
    }

    /// Whether `killed` is what killing the live process gives: nothing
    /// without a live process; else that process, after the kill, and the
    /// outcome of the kill.
    pub open spec fn kills(self, killed: Option<(P, Result<(), ControlError>)>) -> bool {
        match self.inferior() {
            None => killed is None,
            Some(process) => killed matches Some((gone, done)) && gone.spec_pid()
                == process.spec_pid() && follows(
                process.model(),
                gone.model(),
                done,
                process.model().unwrap().kill(),
            ),
        }
    }

    /// Whether `after` and `killed` are what retiring the live process
    /// leaves: no live process, the same breakpoints and symbols, and the
    /// process that was live, killed.
    pub open spec fn retired(self, after: Self, killed: Option<(P, Result<(), ControlError>)>) -> bool {
        &&& after.inferior() is None
        &&& after.break_points() == self.break_points()
        &&& after.symbols() == self.symbols()
        &&& self.kills(killed)
    }

    /// Whether `after` and `reports` are what taking over the process
    /// `fresh` leaves, apart from what became of the process that was live
    /// before.
    ///
    /// Symbols stay, and the table keeps its addresses. The live process
    /// afterwards, if there is one, is `fresh`. The process is launched and
    /// then woken: a failed launch is reported and leaves no live process;
    /// else every breakpoint is armed, the first state change after the
    /// launch is reported, and the process stays live unless it exited or
    /// was terminated. Where `fresh` has a model, launch and waking go as
    /// the model says.
    pub open spec fn attached(self, fresh: P, after: Self, reports: Seq<Report>) -> bool {
        &&& after.symbols() == self.symbols()
        &&& same_addresses(self.break_points(), after.break_points())
        &&& after.inferior() matches Some(process) ==> process.spec_pid() == fresh.spec_pid()
        &&& exists|first: Result<Status, LaunchError>, outcome: Result<Status, ControlError>|
            {
                &&& #[trigger] attach_reports(self.symbols(), first, outcome) == reports
                &&& after.inferior() is Some == (first is Ok && stays_live(outcome))
                &&& first matches Ok(status) ==> status.is_trap() && all_armed(
                    after.break_points(),
                )
                &&& outcome matches Err(e) ==> e.fails_wake_up()
            }
        &&& fresh.model() matches Some(m) ==> {
            let launched = launch_model(m, self.break_points());
            &&& after.break_points() == launched.entries
            &&& match launched.outcome {
                Err(e) => reports == seq![launch_report(e)] && after.inferior() is None,
                Ok(_) => {
                    let (woken, outcome) = wake_up_model(launched.process, launched.entries);
                    &&& reports == resume_reports(self.symbols(), outcome)
                    &&& after.inferior() is Some == stays_live(outcome)
                    &&& stays_live(outcome) ==> after.live_model() == Some(woken)
                },
            }
        }
    }

    /// What is reported of retiring the live process.
    pub open spec fn retirement_reports(killed: Option<(P, Result<(), ControlError>)>) -> Seq<Report> {
        match killed {
            None => Seq::empty(),
            Some((gone, done)) => kill_reports(gone.spec_pid(), done),
        }
    }

    /// Whether `after` and `reports` are what resuming leaves.
    ///
    /// Without a live process that is reported and nothing changes. With
    /// one, breakpoints and symbols stay, and the process stays the same
    /// one if any stays. The process is woken, the outcome is reported,
    /// and the process stays live unless it exited or was terminated.
    /// Where the process has a model, it is woken as the model says.
    pub open spec fn resumed(self, after: Self, reports: Seq<Report>) -> bool {
        &&& after.symbols() == self.symbols()
        &&& after.break_points() == self.break_points()
        &&& match self.inferior() {
            None => reports == seq![Report::NoInferior] && after.inferior() is None,
            Some(process) => {
                &&& after.inferior() is Some ==> after.live_pid() == self.live_pid()
                &&& exists|outcome: Result<Status, ControlError>|
                    {
                        &&& #[trigger] resume_reports(self.symbols(), outcome) == reports
                        &&& after.inferior() is Some == stays_live(outcome)
                        &&& outcome matches Err(e) ==> e.fails_wake_up()
                    }
                &&& process.model() matches Some(m) ==> {
                    let (woken, outcome) = wake_up_model(m, self.break_points());
                    &&& reports == resume_reports(self.symbols(), outcome)
                    &&& after.inferior() is Some == stays_live(outcome)
                    &&& stays_live(outcome) ==> after.live_model() == Some(woken)
                }
            },
        }
    }

    /// Whether `reports` is what a backtrace reports: that no process is
    /// live; or the call stack, innermost frame first and ending with the
    /// entry function; or why the stack could not be walked. Where the
    /// process has a model, the frames are those of the model.
    pub open spec fn backtraced(self, reports: Seq<Report>) -> bool {
        match self.inferior() {
            None => reports == seq![Report::NoInferior],
            Some(process) => {
                &&& reports.len() == 1
                &&& match reports[0] {
                    Report::Stack(frames) => ends_at_entry(frames@, self.symbols()),
                    other => other is BacktraceFailed,
                }
                &&& process.model() matches Some(m) ==> match backtrace_model(m, self.symbols()) {
                    Ok(frames) => reports[0] matches Report::Stack(found) && found@ == frames,
                    Err(e) => reports[0] == Report::BacktraceFailed(e),
                }
            },
        }
    }

    /// Whether `after` and `reports` are what asking for a breakpoint at
    /// the location `target` leaves.
    ///
    /// Symbols stay and so does the live process, but for its memory. A
    /// location that stands for no address is reported, and so is an
    /// address that the table holds already; neither changes anything.
    /// Otherwise the trap is written into the live process, if there is
    /// one, and the breakpoint is recorded at the end of the table: pending
    /// without a live process, armed with the displaced byte with one. A
    /// trap that cannot be written is reported and the table stays.
    pub open spec fn breakpoint_asked(self, after: Self, target: Seq<char>, reports: Seq<Report>) -> bool {
        &&& after.symbols() == self.symbols()
        &&& after.live_pid() == self.live_pid()
        &&& match break_address(self.symbols(), location_of(target)) {
            Err(report) => {
                &&& reports == seq![report]
                &&& after.break_points() == self.break_points()
                &&& after.live_model() == self.live_model()
            },
            Ok(address) => if slot_of(self.break_points(), address) is Some {
                &&& reports == seq![Report::BreakpointExists(address)]
                &&& after.break_points() == self.break_points()
                &&& after.live_model() == self.live_model()
            } else {
                match self.inferior() {
                    None => {
                        &&& reports == seq![
                            new_breakpoint_report(self.break_points(), address, None),
                        ]
                        &&& after.break_points() == entries_with(self.break_points(), address, None)
                    },
                    Some(process) => exists|patched: Result<u8, ControlError>|
                        {
                            &&& #[trigger] follows(
                                process.model(),
                                after.live_model(),
                                patched,
                                process.model().unwrap().patch_byte(address, TRAP_OPCODE),
                            )
                            &&& reports == seq![
                                new_breakpoint_report(self.break_points(), address, Some(patched)),
                            ]
                            &&& after.break_points() == entries_with(
                                self.break_points(),
                                address,
                                Some(patched),
                            )
                        },
                }
            },
        }
    }

    /// A session for the target with the symbols `debug_data`: no process
    /// is live and no breakpoint is set.
    pub fn new(debug_data: SymbolTable) -> (debugger: Debugger<P>)
        ensures
            debugger.inferior() is None,
            debugger.break_points() == Seq::<Breakpoint>::empty(),
            debugger.symbols() == debug_data@,
    {
        Debugger { inferior: None, break_points: BreakpointTable::new(), debug_data }
    }

    /// Whether a process is live.
    pub fn has_inferior(&self) -> (live: bool)
        ensures
            live == self.inferior() is Some,
    {
        self.inferior.is_some()
    }

    /// The slot recorded for the breakpoint at `address`, if there is one.
    pub fn breakpoint(&self, address: usize) -> (slot: Option<Slot>)
        ensures
            slot == slot_of(self.break_points(), address),
    {
        self.break_points.get(address)
    }

    /// Lets go of the live process, if there is one, after killing it.
    /// Returns the process that was live together with the outcome of the
    /// kill. Afterwards no process is live, whether the kill succeeded or
    /// not.
    pub fn retire(&mut self) -> (killed: Option<(P, Result<(), ControlError>)>)
        ensures
            old(self).retired(*final(self), killed),
    {
        match self.inferior.take() {
            None => None,
            Some(mut process) => {
                let done = process.kill();
                Some((process, done))
            },
        }
    }

    /// Writes the reports of a retirement.
    fn report_retirement(killed: &Option<(P, Result<(), ControlError>)>) -> (reports: Vec<Report>)
        ensures
            reports@ == Self::retirement_reports(*killed),
    {
        let mut reports: Vec<Report> = Vec::new();
        match killed {
            None => {},
            Some((gone, done)) => {
                reports.push(Report::Killed(gone.pid()));
                match done {
                    Ok(()) => {},
                    Err(e) => {
                        reports.push(Report::KillFailed(*e));
                    },
                }
            },
        }
        assert(reports@ =~= Self::retirement_reports(*killed));
        reports
    }

    /// Takes over `fresh`, a process that the front end has just started
    /// under trace, and lets it run to its first stop or to its end.
    ///
    /// A process that is still live is killed first, which is reported
    /// first, so that afterwards at most one process is live, and that one
    /// is `fresh`. The breakpoints of the table are armed in `fresh` before
    /// it runs. If `fresh` cannot be taken over it is killed and no process
    /// is live.
    pub fn attach(&mut self, fresh: P) -> (reports: Vec<Report>)
        ensures
            exists|killed: Option<(P, Result<(), ControlError>)>|
                {
                    let told = Self::retirement_reports(killed).len() as int;
                    &&& #[trigger] old(self).kills(killed)
                    &&& told <= reports@.len()
                    &&& reports@.take(told) == Self::retirement_reports(killed)
                    &&& old(self).attached(fresh, *final(self), reports@.skip(told))
                },
    {
        let killed = self.retire();
        let mut reports = Self::report_retirement(&killed);
        let ghost before = reports@;
        let ghost gone = killed;
        let mut process = fresh;
        let first = launch(&mut process, &mut self.break_points);
        match first {
            Err(e) => {
                reports.push(report_launch_failure(e));
                proof {
                    let idle = Err::<Status, ControlError>(ControlError::UnexpectedState);
                    assert(reports@.take(before.len() as int) =~= before);
                    assert(reports@.skip(before.len() as int) =~= seq![launch_report(e)]);
                    assert(attach_reports(old(self).symbols(), first, idle) == reports@.skip(
                        before.len() as int,
                    ));
                }
            },
            Ok(_) => {
                let outcome = wake_up(&mut process, &self.break_points);
                let (mut news, live) = report_resume(&self.debug_data, outcome);
                let ghost told = news@;
                reports.append(&mut news);
                proof {
                    assert(reports@.take(before.len() as int) =~= before);
                    assert(reports@.skip(before.len() as int) =~= told);
                    assert(attach_reports(old(self).symbols(), first, outcome) == reports@.skip(
                        before.len() as int,
                    ));
                }
                if live {
                    self.inferior = Some(process);
                }
            },
        }
        assert(old(self).kills(gone));
        reports
    }

    /// Resumes the live process and reports its next state change. A
    /// process that exited or was terminated is live no longer.
    pub fn resume(&mut self) -> (reports: Vec<Report>)
        ensures
            old(self).resumed(*final(self), reports@),
    {
        match self.inferior.take() {
            None => {
                let mut reports: Vec<Report> = Vec::new();
                reports.push(Report::NoInferior);
                assert(reports@ =~= seq![Report::NoInferior]);
                reports
            },
            Some(mut process) => {
                let outcome = wake_up(&mut process, &self.break_points);
                let (reports, live) = report_resume(&self.debug_data, outcome);
                if live {
                    self.inferior = Some(process);
                }
                assert(resume_reports(old(self).symbols(), outcome) == reports@);
                reports
            },
        }
    }

    /// Reports the call stack of the live process, innermost frame first
    /// and ending with the entry function.
    pub fn backtrace(&self) -> (reports: Vec<Report>)
        ensures
            self.backtraced(reports@),
    {
        let mut reports: Vec<Report> = Vec::new();
        match &self.inferior {
            None => {
                reports.push(Report::NoInferior);
                assert(reports@ =~= seq![Report::NoInferior]);
            },
            Some(process) => match backtrace(process, &self.debug_data) {
                Err(e) => {
                    reports.push(Report::BacktraceFailed(e));
                    assert(reports@ =~= seq![Report::BacktraceFailed(e)]);
                },
                Ok(frames) => {
                    reports.push(Report::Stack(frames));
                },
            },
        }
        reports
    }

    /// Adds a breakpoint at the location that `target` names: `*` and a
    /// hexadecimal address, a line number, or a function name.
    pub fn set_breakpoint(&mut self, target: &str) -> (reports: Vec<Report>)
        ensures
            old(self).breakpoint_asked(*final(self), target@, reports@),
    {
        let location = parse_break_location(target);
        let mut reports: Vec<Report> = Vec::new();
        let address = match locate(&self.debug_data, &location) {
            Err(report) => {
                reports.push(report);
                assert(reports@ =~= seq![report]);
                return reports;
            },
            Ok(address) => address,
        };
        if self.break_points.get(address).is_some() {
            reports.push(Report::BreakpointExists(address));
            assert(reports@ =~= seq![Report::BreakpointExists(address)]);
            return reports;
        }
        let report = match self.inferior.take() {
            None => record_breakpoint(&mut self.break_points, address, None),
            Some(mut process) => {
                let patched = patch_byte(&mut process, address, TRAP_OPCODE);
                self.inferior = Some(process);
                let report = record_breakpoint(&mut self.break_points, address, Some(patched));
                assert(follows(
                    old(self).inferior().unwrap().model(),
                    self.live_model(),
                    patched,
                    old(self).inferior().unwrap().model().unwrap().patch_byte(address, TRAP_OPCODE),
                ));
                report
            },
        };
        reports.push(report);
        assert(reports@ =~= seq![report]);
        reports
    }

    /// Ends the session: the live process, if there is one, is killed.
    pub fn quit(&mut self) -> (reports: Vec<Report>)
        ensures
            exists|killed: Option<(P, Result<(), ControlError>)>| #[trigger]
                old(self).retired(*final(self), killed) && reports@ == Self::retirement_reports(
                    killed,
                ).push(Report::Quit),
    {
        let killed = self.retire();
        let mut reports = Self::report_retirement(&killed);
        reports.push(Report::Quit);
        reports
    }

    /// Asks for a fresh run of the target with the arguments `args`: the
    /// live process, if there is one, is killed, and the front end is asked
    /// to launch.
    pub fn restart(&mut self, args: Vec<String>) -> (reports: Vec<Report>)
        ensures
            exists|killed: Option<(P, Result<(), ControlError>)>| #[trigger]
                old(self).retired(*final(self), killed) && reports@ == Self::retirement_reports(
                    killed,
                ).push(Report::Launch(args)),
    {
        let killed = self.retire();
        let mut reports = Self::report_retirement(&killed);
        reports.push(Report::Launch(args));
        reports
    }

    /// Carries out one command and returns what is to be reported.
    ///
    /// `quit` and `run` kill the live process, if there is one; `run` then
    /// asks the front end to launch the target, which is to hand the new
    /// process to [`Debugger::attach`]. `continue` resumes the live
    /// process, `backtrace` reports its call stack, and `break` adds a
    /// breakpoint.
    pub fn run(&mut self, command: DebuggerCommand) -> (reports: Vec<Report>)
        ensures
            match command {
                DebuggerCommand::Quit => exists|killed: Option<(P, Result<(), ControlError>)>| #[trigger]
                    old(self).retired(*final(self), killed) && reports@ == Self::retirement_reports(
                        killed,
                    ).push(Report::Quit),
                DebuggerCommand::Run(args) => exists|killed: Option<(P, Result<(), ControlError>)>| #[trigger]
                    old(self).retired(*final(self), killed) && reports@ == Self::retirement_reports(
                        killed,
                    ).push(Report::Launch(args)),
                DebuggerCommand::Continue => old(self).resumed(*final(self), reports@),
                DebuggerCommand::Backtrace => *final(self) == *old(self) && old(self).backtraced(
                    reports@,
                ),
                DebuggerCommand::Break(target) => old(self).breakpoint_asked(
                    *final(self),
                    target@,
                    reports@,
                ),
            },
    {
        match command {
            DebuggerCommand::Quit => self.quit(),
            DebuggerCommand::Run(args) => self.restart(args),
            DebuggerCommand::Continue => self.resume(),
            DebuggerCommand::Backtrace => self.backtrace(),
            DebuggerCommand::Break(target) => self.set_breakpoint(target.as_str()),
        }
    }
}

/// A process that the session has retired is not leaked: where it has a
/// model, the process that comes back is that process, killed, and the
/// session holds no live process any more. Together with what
/// [`Debugger::attach`] ensures, that the live process after it is the one
/// attached, a fresh run leaves at most one process alive.
pub proof fn law_retired_process_is_gone<P: ProcessController>(
    before: Debugger<P>,
    after: Debugger<P>,
    killed: Option<(P, Result<(), ControlError>)>,
)
    requires
        before.retired(after, killed),
        before.live_model() is Some,
    ensures
        after.inferior() is None,
        ({
            &&& killed matches Some((gone, done))
            &&& done is Ok
            &&& Some(gone.spec_pid()) == before.live_pid()
            &&& gone.model() matches Some(m)
            &&& m.phase is Gone
        }),
{
}

/// Breakpoints that were set before a run are armed by it: when a process
/// has been attached and is live afterwards, every breakpoint of the table
/// is armed; and the process is at rest, unless resuming it failed.
pub proof fn law_attach_arms_breakpoints<P: ProcessController>(
    before: Debugger<P>,
    fresh: P,
    after: Debugger<P>,
    reports: Seq<Report>,
)
    requires
        before.attached(fresh, after, reports),
        fresh.model() is Some,
        after.inferior() is Some,
    ensures
        all_armed(after.break_points()),
        same_addresses(before.break_points(), after.break_points()),
        after.live_model() matches Some(m) && (m.phase is Stopped || reports.len() == 1 && (
        reports[0] is ResumeFailed || reports[0] is UnexpectedState)),
{
    let launched = launch_model(fresh.model().unwrap(), before.break_points());
    law_launch_settles(fresh.model().unwrap(), before.break_points());
    law_wake_up_settles(launched.process, launched.entries);
}

/// The session waits after every resumption: a live process that was at
/// rest before it was resumed is at rest again if it is still live, unless
/// resuming it failed.
pub proof fn law_live_process_rests<P: ProcessController>(
    before: Debugger<P>,
    after: Debugger<P>,
    reports: Seq<Report>,
)
    requires
        before.resumed(after, reports),
        before.live_model() matches Some(m) && m.phase is Stopped,
        after.inferior() is Some,
    ensures
        after.live_model() matches Some(m) && (m.phase is Stopped || reports.len() == 1 && (
        reports[0] is ResumeFailed || reports[0] is UnexpectedState)),
{
    law_wake_up_settles(before.live_model().unwrap(), before.break_points());
}

} // verus!
