use syskit::backtrace::{BacktraceError, StackFrame};
use syskit::breakpoints::Slot;
use syskit::command::DebuggerCommand;
use syskit::control::LaunchError;
use syskit::debugger::{
    locate, record_breakpoint, report_failure, report_launch_failure, report_resume,
    report_status, Debugger, Report,
};
use syskit::breakpoints::BreakpointTable;
use syskit::command::BreakLocation;
use syskit::process::{Phase, ProcessController, Resumption};
use syskit::scripted::ScriptedProcess;
use syskit::status::{ControlError, Operation, Status, EFAULT, ESRCH, SIGTRAP};
use syskit::symbols::{SourceLine, SymbolTable};
use syskit::word::{TRAP_LENGTH, TRAP_OPCODE};

const MAIN: usize = 0x401136;
const HELPER: usize = 0x4011a0;
const STACK: usize = 0x7ffd_1000;

// A target with two functions: `main`, whose first line is line 10, and
// `helper`, whose first line is line 42 and which `main` calls.
fn symbols() -> SymbolTable {
    let mut table = SymbolTable::new("main");
    table.add_function("main", MAIN, 0x4011a0);
    table.add_function("helper", HELPER, 0x401200);
    table.add_line("prog.c", 10, MAIN, 0x401140);
    table.add_line("prog.c", 11, 0x401140, 0x4011a0);
    table.add_line("prog.c", 42, HELPER, 0x4011b0);
    table.add_line("prog.c", 43, 0x4011b0, 0x401200);
    table
}

// A freshly started process whose code is mapped from 0x401000 to 0x401200
// and whose stack holds one frame of `helper` called from line 11 of `main`.
fn target() -> ScriptedProcess {
    let mut process = ScriptedProcess::new(4242, 0x400800, STACK);
    let mut addr = 0x401000;
    while addr < 0x401200 {
        process.map_word(addr, 0x9090_9090_9090_9090);
        addr += 8;
    }
    process.map_word(STACK, (STACK + 0x40) as u64);
    process.map_word(STACK + 8, 0x401150);
    process.expect(Status::Stopped(SIGTRAP, 0x400800));
    process
}

fn line(number: usize) -> SourceLine {
    SourceLine { file: "prog.c".to_string(), number }
}

#[test]
fn break_at_main_run_then_continue_to_exit() {
    let mut debugger: Debugger<ScriptedProcess> = Debugger::new(symbols());
    assert_eq!(
        debugger.run(DebuggerCommand::Break("main".to_string())),
        vec![Report::BreakpointSet { index: 0, address: MAIN }]
    );
    assert_eq!(debugger.breakpoint(MAIN), Some(Slot::Pending));
    assert_eq!(debugger.run(DebuggerCommand::Run(vec![])), vec![Report::Launch(vec![])]);

    let mut process = target();
    process.expect(Status::Stopped(SIGTRAP, MAIN + TRAP_LENGTH));
    process.expect(Status::Stopped(SIGTRAP, MAIN + 4));
    process.expect(Status::Exited(0));
    assert_eq!(
        debugger.attach(process),
        vec![Report::Stopped { signal: SIGTRAP, pc: MAIN + TRAP_LENGTH }, Report::StoppedAt(line(10))]
    );
    assert!(debugger.has_inferior());
    assert_eq!(debugger.breakpoint(MAIN), Some(Slot::Armed(0x90)));
    assert_eq!(debugger.run(DebuggerCommand::Continue), vec![Report::Exited(0)]);
    assert!(!debugger.has_inferior());
    assert_eq!(debugger.run(DebuggerCommand::Continue), vec![Report::NoInferior]);
}

#[test]
fn break_at_line_run_then_backtrace_names_the_function() {
    let mut debugger: Debugger<ScriptedProcess> = Debugger::new(symbols());
    assert_eq!(
        debugger.run(DebuggerCommand::Break("42".to_string())),
        vec![Report::BreakpointSet { index: 0, address: 0x4011a0 }]
    );
    let args = vec!["--fast".to_string()];
    assert_eq!(debugger.run(DebuggerCommand::Run(args.clone())), vec![Report::Launch(args)]);
    let mut process = target();
    process.expect(Status::Stopped(SIGTRAP, 0x4011a0));
    assert_eq!(
        debugger.attach(process),
        vec![Report::Stopped { signal: SIGTRAP, pc: 0x4011a0 }, Report::StoppedAt(line(42))]
    );
    let reports = debugger.run(DebuggerCommand::Backtrace);
    assert_eq!(
        reports,
        vec![Report::Stack(vec![
            StackFrame { function: "helper".to_string(), line: line(42) },
            StackFrame { function: "main".to_string(), line: line(11) },
        ])]
    );
}

#[test]
fn stop_just_behind_a_breakpoint_is_reported_in_its_line() {
    let mut debugger: Debugger<ScriptedProcess> = Debugger::new(symbols());
    debugger.set_breakpoint("*0x4011a0");
    debugger.restart(vec![]);
    let mut process = target();
    process.expect(Status::Stopped(SIGTRAP, 0x4011a0 + TRAP_LENGTH));
    assert_eq!(
        debugger.attach(process),
        vec![Report::Stopped { signal: SIGTRAP, pc: 0x4011a1 }, Report::StoppedAt(line(42))]
    );
}

#[test]
fn run_with_a_live_process_kills_it_first() {
    let mut debugger: Debugger<ScriptedProcess> = Debugger::new(symbols());
    let mut first = target();
    first.expect(Status::Stopped(2, MAIN));
    debugger.attach(first);
    assert!(debugger.has_inferior());
    assert_eq!(
        debugger.run(DebuggerCommand::Run(vec![])),
        vec![Report::Killed(4242), Report::Launch(vec![])]
    );
    assert!(!debugger.has_inferior());
}

#[test]
fn retire_hands_back_the_killed_process() {
    let mut debugger: Debugger<ScriptedProcess> = Debugger::new(symbols());
    assert!(debugger.retire().is_none());
    let mut first = target();
    first.expect(Status::Stopped(2, MAIN));
    debugger.attach(first);
    let (gone, done) = debugger.retire().unwrap();
    assert_eq!(done, Ok(()));
    assert_eq!(gone.phase(), Phase::Gone);
    assert_eq!(gone.pid(), 4242);
    assert!(!debugger.has_inferior());
}

#[test]
fn attach_replaces_a_live_process() {
    let mut debugger: Debugger<ScriptedProcess> = Debugger::new(symbols());
    let mut first = target();
    first.expect(Status::Stopped(2, MAIN));
    debugger.attach(first);
    let mut second = ScriptedProcess::new(77, 0x400800, STACK);
    second.expect(Status::Stopped(SIGTRAP, 0x400800));
    second.expect(Status::Stopped(2, HELPER));
    let reports = debugger.attach(second);
    assert_eq!(
        reports,
        vec![
            Report::Killed(4242),
            Report::Stopped { signal: 2, pc: HELPER },
            Report::StoppedAt(line(42)),
        ]
    );
    assert_eq!(
        debugger.retire().map(|(gone, _)| gone.pid()),
        Some(77)
    );
}

#[test]
fn launch_fails_unless_first_stop_is_a_trap() {
    let mut debugger: Debugger<ScriptedProcess> = Debugger::new(symbols());
    let mut process = ScriptedProcess::new(9, 0, 0);
    process.expect(Status::Stopped(19, 0x400800));
    assert_eq!(
        debugger.attach(process),
        vec![Report::LaunchFailed(LaunchError::NotTrapped(Status::Stopped(19, 0x400800)))]
    );
    assert!(!debugger.has_inferior());

    let process = ScriptedProcess::new(9, 0, 0);
    assert_eq!(
        debugger.attach(process),
        vec![Report::LaunchFailed(LaunchError::Wait(ControlError::Refused {
            operation: Operation::Wait,
            errno: 10,
        }))]
    );

    let mut process = ScriptedProcess::new(9, 0, 0);
    process.expect(Status::Exited(127));
    assert_eq!(
        debugger.attach(process),
        vec![Report::LaunchFailed(LaunchError::NotTrapped(Status::Exited(127)))]
    );
}

#[test]
fn launch_fails_when_a_breakpoint_cannot_be_armed() {
    let mut debugger: Debugger<ScriptedProcess> = Debugger::new(symbols());
    debugger.set_breakpoint("*0x500000");
    let process = target();
    assert_eq!(
        debugger.attach(process),
        vec![Report::LaunchFailed(LaunchError::Arm(ControlError::Refused {
            operation: Operation::ReadMemory,
            errno: EFAULT,
        }))]
    );
    assert!(!debugger.has_inferior());
    assert_eq!(debugger.breakpoint(0x500000), Some(Slot::Pending));
}

#[test]
fn break_while_live_patches_at_once() {
    let mut debugger: Debugger<ScriptedProcess> = Debugger::new(symbols());
    let mut process = target();
    process.map_word(0x401198, 0x1122_3344_5566_7788);
    process.expect(Status::Stopped(2, MAIN));
    debugger.attach(process);
    assert_eq!(
        debugger.set_breakpoint("*40119b"),
        vec![Report::BreakpointSet { index: 0, address: 0x40119b }]
    );
    assert_eq!(debugger.breakpoint(0x40119b), Some(Slot::Armed(0x55)));
    let (gone, _) = debugger.retire().unwrap();
    assert_eq!(gone.word(0x401198), Some(0x1122_3344_cc66_7788));
    assert_eq!(gone.byte(0x40119b), Some(TRAP_OPCODE));
}

#[test]
fn break_while_live_reports_unwritable_address() {
    let mut debugger: Debugger<ScriptedProcess> = Debugger::new(symbols());
    let mut process = target();
    process.expect(Status::Stopped(2, MAIN));
    debugger.attach(process);
    assert_eq!(
        debugger.set_breakpoint("*0x500000"),
        vec![Report::BreakpointFailed {
            address: 0x500000,
            error: ControlError::Refused { operation: Operation::ReadMemory, errno: EFAULT },
        }]
    );
    assert_eq!(debugger.breakpoint(0x500000), None);
}

#[test]
fn break_reports_unresolvable_locations() {
    let mut debugger: Debugger<ScriptedProcess> = Debugger::new(symbols());
    assert_eq!(debugger.set_breakpoint("*zz"), vec![Report::BadAddress]);
    assert_eq!(debugger.set_breakpoint("*"), vec![Report::BadAddress]);
    assert_eq!(debugger.set_breakpoint("7"), vec![Report::UnknownLine(7)]);
    assert_eq!(debugger.set_breakpoint("nowhere"), vec![Report::UnknownFunction]);
    assert_eq!(
        debugger.set_breakpoint("99999999999999999999999999"),
        vec![Report::UnknownFunction]
    );
    assert_eq!(
        debugger.set_breakpoint("helper"),
        vec![Report::BreakpointSet { index: 0, address: HELPER }]
    );
    assert_eq!(debugger.set_breakpoint("42"), vec![Report::BreakpointExists(HELPER)]);
    assert_eq!(
        debugger.set_breakpoint("43"),
        vec![Report::BreakpointSet { index: 1, address: 0x4011b0 }]
    );
}

#[test]
fn continue_steps_over_the_breakpoint_and_rearms_it() {
    let mut debugger: Debugger<ScriptedProcess> = Debugger::new(symbols());
    debugger.set_breakpoint("helper");
    let mut process = target();
    process.expect(Status::Stopped(SIGTRAP, HELPER + TRAP_LENGTH));
    process.expect(Status::Stopped(SIGTRAP, HELPER + 4));
    process.expect(Status::Stopped(SIGTRAP, HELPER + TRAP_LENGTH));
    debugger.attach(process);
    assert_eq!(
        debugger.resume(),
        vec![Report::Stopped { signal: SIGTRAP, pc: HELPER + TRAP_LENGTH }, Report::StoppedAt(line(42))]
    );
    let (gone, _) = debugger.retire().unwrap();
    assert_eq!(gone.byte(HELPER), Some(TRAP_OPCODE));
    assert_eq!(
        gone.resumptions(),
        vec![
            Resumption { singlestep: false, pc: 0x400800, opcode: None },
            Resumption { singlestep: true, pc: HELPER, opcode: Some(0x90) },
            Resumption { singlestep: false, pc: HELPER + 4, opcode: Some(0x90) },
        ]
    );
}

#[test]
fn continue_reports_exit_during_the_step() {
    let mut debugger: Debugger<ScriptedProcess> = Debugger::new(symbols());
    debugger.set_breakpoint("helper");
    let mut process = target();
    process.expect(Status::Stopped(SIGTRAP, HELPER + TRAP_LENGTH));
    process.expect(Status::Signaled(9));
    process.expect(Status::Exited(0));
    debugger.attach(process);
    assert_eq!(debugger.resume(), vec![Report::Signaled(9)]);
    assert!(!debugger.has_inferior());
}

#[test]
fn stop_outside_the_symbols_is_reported_as_unresolved() {
    let mut debugger: Debugger<ScriptedProcess> = Debugger::new(symbols());
    let mut process = target();
    process.expect(Status::Stopped(11, 0x10));
    assert_eq!(
        debugger.attach(process),
        vec![Report::Stopped { signal: 11, pc: 0x10 }, Report::Unresolved(0x10)]
    );
    assert_eq!(
        debugger.backtrace(),
        vec![Report::BacktraceFailed(BacktraceError::Unresolved(0x10))]
    );
}

#[test]
fn backtrace_and_continue_need_a_live_process() {
    let mut debugger: Debugger<ScriptedProcess> = Debugger::new(symbols());
    assert_eq!(debugger.run(DebuggerCommand::Backtrace), vec![Report::NoInferior]);
    assert_eq!(debugger.run(DebuggerCommand::Continue), vec![Report::NoInferior]);
    assert_eq!(debugger.run(DebuggerCommand::Quit), vec![Report::Quit]);
}

#[test]
fn quit_kills_the_live_process() {
    let mut debugger: Debugger<ScriptedProcess> = Debugger::new(symbols());
    let mut process = target();
    process.expect(Status::Stopped(2, MAIN));
    debugger.attach(process);
    assert_eq!(debugger.run(DebuggerCommand::Quit), vec![Report::Killed(4242), Report::Quit]);
    assert!(!debugger.has_inferior());
}

#[test]
fn resume_failure_keeps_the_process() {
    let mut debugger: Debugger<ScriptedProcess> = Debugger::new(symbols());
    let mut process = target();
    process.expect(Status::Stopped(2, MAIN));
    debugger.attach(process);
    assert_eq!(
        debugger.resume(),
        vec![Report::ResumeFailed(ControlError::Refused { operation: Operation::Wait, errno: 10 })]
    );
    assert!(debugger.has_inferior());
    assert_eq!(
        debugger.resume(),
        vec![Report::ResumeFailed(ControlError::Refused {
            operation: Operation::ReadRegisters,
            errno: ESRCH,
        })]
    );
}

#[test]
fn record_breakpoint_follows_the_outcome_of_the_patch() {
    let mut table = BreakpointTable::new();
    assert_eq!(
        record_breakpoint(&mut table, 0x10, None),
        Report::BreakpointSet { index: 0, address: 0x10 }
    );
    assert_eq!(table.get(0x10), Some(Slot::Pending));
    assert_eq!(
        record_breakpoint(&mut table, 0x20, Some(Ok(0x55))),
        Report::BreakpointSet { index: 1, address: 0x20 }
    );
    assert_eq!(table.get(0x20), Some(Slot::Armed(0x55)));
    let refused = ControlError::Refused { operation: Operation::ReadMemory, errno: EFAULT };
    assert_eq!(
        record_breakpoint(&mut table, 0x30, Some(Err(refused))),
        Report::BreakpointFailed { address: 0x30, error: refused }
    );
    assert_eq!(table.get(0x30), None);
    assert_eq!(record_breakpoint(&mut table, 0x20, Some(Ok(1))), Report::BreakpointExists(0x20));
    assert_eq!(table.get(0x20), Some(Slot::Armed(0x55)));
    assert_eq!(table.len(), 2);
}

#[test]
fn locate_resolves_each_kind_of_location() {
    let table = symbols();
    assert_eq!(locate(&table, &None), Err(Report::BadAddress));
    assert_eq!(locate(&table, &Some(BreakLocation::Address(0x77))), Ok(0x77));
    assert_eq!(locate(&table, &Some(BreakLocation::Line(11))), Ok(0x401140));
    assert_eq!(locate(&table, &Some(BreakLocation::Line(12))), Err(Report::UnknownLine(12)));
    assert_eq!(locate(&table, &Some(BreakLocation::Function("helper".to_string()))), Ok(HELPER));
    assert_eq!(
        locate(&table, &Some(BreakLocation::Function("help".to_string()))),
        Err(Report::UnknownFunction)
    );
}

#[test]
fn report_resume_says_whether_the_process_lives() {
    let table = symbols();
    assert_eq!(report_status(&table, Status::Exited(3)), vec![Report::Exited(3)]);
    assert_eq!(report_status(&table, Status::Signaled(9)), vec![Report::Signaled(9)]);
    assert_eq!(
        report_resume(&table, Ok(Status::Stopped(SIGTRAP, MAIN))),
        (vec![Report::Stopped { signal: SIGTRAP, pc: MAIN }, Report::StoppedAt(line(10))], true)
    );
    assert_eq!(report_resume(&table, Ok(Status::Exited(0))), (vec![Report::Exited(0)], false));
    assert_eq!(report_resume(&table, Ok(Status::Signaled(11))), (vec![Report::Signaled(11)], false));
    let refused = ControlError::Refused { operation: Operation::Resume, errno: ESRCH };
    assert_eq!(report_resume(&table, Err(refused)), (vec![Report::ResumeFailed(refused)], true));
    assert_eq!(
        report_resume(&table, Err(ControlError::UnexpectedState)),
        (vec![Report::UnexpectedState], true)
    );
}

#[test]
fn unexpected_state_has_a_report_of_its_own() {
    assert_eq!(report_failure(ControlError::UnexpectedState), Report::UnexpectedState);
    let refused = ControlError::Refused { operation: Operation::Wait, errno: 10 };
    assert_eq!(report_failure(refused), Report::ResumeFailed(refused));
    assert_eq!(
        report_launch_failure(LaunchError::Wait(ControlError::UnexpectedState)),
        Report::UnexpectedState
    );
    assert_eq!(
        report_launch_failure(LaunchError::Wait(refused)),
        Report::LaunchFailed(LaunchError::Wait(refused))
    );
    assert_eq!(
        report_launch_failure(LaunchError::NotTrapped(Status::Exited(1))),
        Report::LaunchFailed(LaunchError::NotTrapped(Status::Exited(1)))
    );
    assert_eq!(
        report_launch_failure(LaunchError::Arm(ControlError::UnexpectedState)),
        Report::LaunchFailed(LaunchError::Arm(ControlError::UnexpectedState))
    );
}
