use syskit::backtrace::BacktraceError;
use syskit::breakpoints::{BreakpointTable, Slot};
use syskit::inferior::{
    base_pointer_of, classify, pardon, program_counter_of, settle, with_program_counter, Inferior,
    Registers, WaitEvent,
};
use syskit::process::ProcessController;
use syskit::status::{ControlError, Operation, Status, ECHILD, EFAULT, ESRCH, SIGTRAP};
use syskit::symbols::SymbolTable;

// No process has this identifier: it lies above the largest one that the
// system hands out.
const NOBODY: i32 = i32::MAX;

#[test]
fn signal_and_error_numbers_are_those_of_the_system() {
    assert_eq!(SIGTRAP, nix::sys::signal::Signal::SIGTRAP as i32);
    assert_eq!(ESRCH, nix::errno::Errno::ESRCH as i32);
    assert_eq!(ECHILD, nix::errno::Errno::ECHILD as i32);
    assert_eq!(EFAULT, nix::errno::Errno::EFAULT as i32);
}

#[test]
fn from_pid_wants_a_positive_identifier() {
    assert!(Inferior::from_pid(0).is_none());
    assert!(Inferior::from_pid(-1).is_none());
    assert!(Inferior::from_pid(i32::MIN).is_none());
    assert_eq!(Inferior::from_pid(1234).map(|i| i.pid()), Some(1234));
    assert_eq!(Inferior::from_pid(NOBODY).map(|i| i.pid()), Some(NOBODY));
}

#[test]
fn new_fails_without_a_process() {
    let mut table = BreakpointTable::new();
    table.insert(0x401000);
    assert!(Inferior::new(0, &mut table).is_none());
    assert!(Inferior::new(-5, &mut table).is_none());
    assert!(Inferior::new(NOBODY, &mut table).is_none());
    assert_eq!(table.len(), 1);
    assert_eq!(table.get(0x401000), Some(Slot::Pending));
}

#[test]
fn memory_of_an_untraced_process_is_refused() {
    let mut inferior = Inferior::from_pid(NOBODY).unwrap();
    assert_eq!(
        inferior.read_word(0x1000),
        Err(ControlError::Refused { operation: Operation::ReadMemory, errno: ESRCH })
    );
    assert_eq!(
        inferior.write_word(0x1000, 7),
        Err(ControlError::Refused { operation: Operation::WriteMemory, errno: ESRCH })
    );
}

#[test]
fn registers_of_an_untraced_process_are_refused() {
    let mut inferior = Inferior::from_pid(NOBODY).unwrap();
    let refused = ControlError::Refused { operation: Operation::ReadRegisters, errno: ESRCH };
    assert_eq!(inferior.program_counter(), Err(refused));
    assert_eq!(inferior.base_pointer(), Err(refused));
    assert_eq!(inferior.set_program_counter(0x1000), Err(refused));
}

#[test]
fn resuming_an_untraced_process_is_refused() {
    let mut inferior = Inferior::from_pid(NOBODY).unwrap();
    let refused = ControlError::Refused { operation: Operation::Resume, errno: ESRCH };
    assert_eq!(inferior.resume(true), Err(refused));
    assert_eq!(inferior.resume(false), Err(refused));
}

#[test]
fn waiting_for_a_stranger_is_refused() {
    let inferior = Inferior::from_pid(NOBODY).unwrap();
    assert_eq!(
        inferior.wait(),
        Err(ControlError::Refused { operation: Operation::Wait, errno: ECHILD })
    );
}

#[test]
fn killing_a_process_that_is_gone_is_no_error() {
    let mut inferior = Inferior::from_pid(NOBODY).unwrap();
    assert_eq!(inferior.kill(), Ok(()));
    assert_eq!(inferior.kill(), Ok(()));
    assert_eq!(inferior.pid(), NOBODY);
}

#[test]
fn wake_up_of_an_untraced_process_fails_on_the_registers() {
    let mut inferior = Inferior::from_pid(NOBODY).unwrap();
    let table = BreakpointTable::new();
    assert_eq!(
        inferior.wake_up(&table),
        Err(ControlError::Refused { operation: Operation::ReadRegisters, errno: ESRCH })
    );
}

#[test]
fn backtrace_of_an_untraced_process_fails_on_the_registers() {
    let inferior = Inferior::from_pid(NOBODY).unwrap();
    let symbols = SymbolTable::new("main");
    assert_eq!(
        inferior.print_backtrace(&symbols),
        Err(BacktraceError::Control(ControlError::Refused {
            operation: Operation::ReadRegisters,
            errno: ESRCH,
        }))
    );
}

#[test]
fn classify_maps_each_report() {
    assert_eq!(classify(WaitEvent::Exited(3), 0x10), Ok(Status::Exited(3)));
    assert_eq!(classify(WaitEvent::Signaled(9), 0x10), Ok(Status::Signaled(9)));
    assert_eq!(classify(WaitEvent::Stopped(5), 0x10), Ok(Status::Stopped(5, 0x10)));
    assert_eq!(classify(WaitEvent::Other, 0x10), Err(ControlError::UnexpectedState));
}

#[test]
fn pardon_forgives_one_error_number_only() {
    assert_eq!(pardon(Operation::Kill, ESRCH, ESRCH), Ok(()));
    assert_eq!(
        pardon(Operation::Kill, 1, ESRCH),
        Err(ControlError::Refused { operation: Operation::Kill, errno: 1 })
    );
    assert_eq!(
        pardon(Operation::Wait, ESRCH, ECHILD),
        Err(ControlError::Refused { operation: Operation::Wait, errno: ESRCH })
    );
}

fn registers(rip: u64, rbp: u64) -> Registers {
    Registers {
        r15: 15, r14: 14, r13: 13, r12: 12, rbp, rbx: 1, r11: 11, r10: 10, r9: 9, r8: 8, rax: 2, rcx: 3,
        rdx: 4, rsi: 5, rdi: 6, orig_rax: 7, rip, cs: 0x33, eflags: 0x246, rsp: 0x7ffd_0000, ss: 0x2b,
        fs_base: 20, gs_base: 21, ds: 22, es: 23, fs: 24, gs: 25,
    }
}

#[test]
fn settle_reads_the_program_counter_after_a_stop_only() {
    let refused = ControlError::Refused { operation: Operation::ReadRegisters, errno: ESRCH };
    assert_eq!(
        settle(WaitEvent::Stopped(5), Some(Ok(registers(0x401137, 0x7000)))),
        Ok(Status::Stopped(5, 0x401137))
    );
    assert_eq!(settle(WaitEvent::Stopped(5), Some(Err(refused))), Err(refused));
    assert_eq!(settle(WaitEvent::Exited(3), None), Ok(Status::Exited(3)));
    assert_eq!(settle(WaitEvent::Signaled(9), None), Ok(Status::Signaled(9)));
    assert_eq!(settle(WaitEvent::Other, None), Err(ControlError::UnexpectedState));
}

#[test]
fn register_accessors_pick_and_set_the_program_counter() {
    let held = registers(0x401137, 0x7ffd_0040);
    assert_eq!(program_counter_of(&held), 0x401137);
    assert_eq!(base_pointer_of(&held), 0x7ffd_0040);
    let moved = with_program_counter(held, 0x401136);
    assert_eq!(moved, registers(0x401136, 0x7ffd_0040));
    assert_eq!(with_program_counter(moved, 0x401137), held);
}
