use syskit::breakpoints::{BreakpointTable, Slot};
use syskit::control::{arm_all, find_trapped_breakpoint, wake_up, LaunchError};
use syskit::debugger::{Debugger, Report};
use syskit::inferior::Inferior;
use syskit::process::{patch_byte, ProcessController};
use syskit::status::{ControlError, Operation, Status, ECHILD, ESRCH, SIGTRAP};
use syskit::symbols::SymbolTable;
use syskit::word::{align_addr_to_word, byte_offset, extract_byte, TRAP_LENGTH, TRAP_OPCODE};

const SIGSTOP: i32 = 19;

// Starts a child that sleeps for two seconds, lets it fall asleep, and
// attaches to it. `None` where the system does not let this process start
// or trace a child.
fn attached_sleeper() -> Option<Inferior> {
    let actions = nix::spawn::PosixSpawnFileActions::init().ok()?;
    let attr = nix::spawn::PosixSpawnAttr::init().ok()?;
    let no_environment = [c""; 0];
    let pid = nix::spawn::posix_spawnp(
        c"sleep",
        &actions,
        &attr,
        &[c"sleep", c"2"],
        &no_environment,
    )
    .ok()?;
    nix::unistd::sleep(1);
    let inferior = Inferior::from_pid(pid.as_raw())?;
    if nix::sys::ptrace::attach(pid).is_err() {
        let _ = nix::sys::signal::kill(pid, nix::sys::signal::Signal::SIGKILL);
        let _ = nix::sys::wait::waitpid(pid, None);
        return None;
    }
    Some(inferior)
}

// A sleeping child, stopped under trace, and its program counter. `None`
// too where the child was caught before it had fallen asleep.
fn traced_sleeper() -> Option<(Inferior, usize)> {
    let mut inferior = attached_sleeper()?;
    match inferior.wait() {
        Ok(Status::Stopped(SIGSTOP, pc)) => Some((inferior, pc)),
        Ok(Status::Stopped(_, _)) => {
            let _ = inferior.kill();
            None
        }
        other => panic!("unexpected state {:?}", other),
    }
}

#[test]
fn live_process_is_patched_and_restored() {
    let (mut inferior, pc) = match traced_sleeper() {
        Some(traced) => traced,
        None => return,
    };
    assert_eq!(inferior.program_counter(), Ok(pc));
    assert!(inferior.base_pointer().is_ok());

    let base = align_addr_to_word(pc);
    let before = inferior.read_word(base).unwrap();
    let displaced = patch_byte(&mut inferior, pc, TRAP_OPCODE).unwrap();
    assert_eq!(displaced, extract_byte(before, byte_offset(pc)));
    let armed = inferior.read_word(base).unwrap();
    assert_eq!(extract_byte(armed, byte_offset(pc)), TRAP_OPCODE);
    for offset in 0..8 {
        if offset != byte_offset(pc) {
            assert_eq!(extract_byte(armed, offset), extract_byte(before, offset));
        }
    }
    assert_eq!(patch_byte(&mut inferior, pc, displaced), Ok(TRAP_OPCODE));
    assert_eq!(inferior.read_word(base), Ok(before));

    assert_eq!(inferior.write_word(base, before), Ok(()));
    assert_eq!(inferior.set_program_counter(pc), Ok(()));
    assert_eq!(inferior.program_counter(), Ok(pc));
    assert!(inferior.read_word(0).is_err());

    assert_eq!(inferior.kill(), Ok(()));
    assert_eq!(inferior.kill(), Ok(()));
    assert_eq!(
        inferior.read_word(base),
        Err(ControlError::Refused { operation: Operation::ReadMemory, errno: ESRCH })
    );
}

#[test]
fn live_process_traps_steps_over_and_exits() {
    let (mut inferior, pc) = match traced_sleeper() {
        Some(traced) => traced,
        None => return,
    };
    // The process rests in its sleep; when that is over it goes on at
    // `pc`, where a breakpoint now lies.
    let mut table = BreakpointTable::new();
    table.insert(pc);
    assert_eq!(arm_all(&mut inferior, &mut table), Ok(()));
    let displaced = match table.get(pc) {
        Some(Slot::Armed(byte)) => byte,
        other => panic!("not armed: {:?}", other),
    };
    assert!(displaced != TRAP_OPCODE);

    assert_eq!(wake_up(&mut inferior, &table), Ok(Status::Stopped(SIGTRAP, pc + TRAP_LENGTH)));
    assert_eq!(find_trapped_breakpoint(&table, pc + TRAP_LENGTH), Some((pc, displaced)));
    let word = inferior.read_word(align_addr_to_word(pc)).unwrap();
    assert_eq!(extract_byte(word, byte_offset(pc)), TRAP_OPCODE);

    // Waking it steps over the breakpoint and lets it run to its end.
    assert_eq!(wake_up(&mut inferior, &table), Ok(Status::Exited(0)));
    assert_eq!(
        wake_up(&mut inferior, &table),
        Err(ControlError::Refused { operation: Operation::ReadRegisters, errno: ESRCH })
    );
    assert_eq!(inferior.kill(), Ok(()));
}

#[test]
fn live_process_that_did_not_trap_is_killed_on_attach() {
    let inferior = match attached_sleeper() {
        Some(attached) => attached,
        None => return,
    };
    let pid = inferior.pid();
    let mut debugger: Debugger<Inferior> = Debugger::new(SymbolTable::new("main"));
    debugger.set_breakpoint("*0x10");
    let reports = debugger.attach(inferior);
    match reports.as_slice() {
        [Report::LaunchFailed(LaunchError::NotTrapped(Status::Stopped(SIGSTOP, _)))] => {}
        other => {
            // The child was caught before it had fallen asleep.
            let _ = debugger.retire();
            assert!(!matches!(other, [Report::LaunchFailed(LaunchError::NotTrapped(_))]));
            return;
        }
    }
    assert!(!debugger.has_inferior());
    assert_eq!(debugger.run(syskit::command::DebuggerCommand::Continue), vec![Report::NoInferior]);
    // The process has been killed and collected.
    let gone = Inferior::from_pid(pid).unwrap();
    assert_eq!(
        gone.wait(),
        Err(ControlError::Refused { operation: Operation::Wait, errno: ECHILD })
    );
}
