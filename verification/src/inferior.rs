//! A child process traced through the operating system.
//!
//! The process has been started elsewhere, under trace from its first
//! instruction; here it is known by its process identifier. Everything the
//! system is asked to do goes through the small functions at the top of
//! this file, which state no more of the system's answers than that they
//! are answers.

use crate::backtrace::{
    backtrace, ends_at_entry, frame_at, resolved, BacktraceError, StackFrame,
};
use crate::breakpoints::{same_addresses, BreakpointTable};
use crate::control::{all_armed, launch, none_armed, wake_up};
use crate::process::{refused, ProcessController, ProcessModel};
use crate::status::{ControlError, Operation, Status, ECHILD, ESRCH};
use crate::symbols::SymbolTable;
use nix::errno::Errno;
use nix::libc::user_regs_struct;
use nix::sys::ptrace::{getregs, setregs};
use nix::unistd::Pid;
use vstd::prelude::*;

verus! {

/// `nix::errno::Errno`, an error of the system, carried through as it
/// comes.
#[verifier::external_type_specification]
#[verifier::external_body]
pub struct ExErrno(nix::errno::Errno);

/// The registers of a stopped process, each as the system gives it.
#[derive(Clone, Copy, Debug, PartialEq, Eq, Structural)]
pub struct Registers {
    pub r15: u64,
    pub r14: u64,
    pub r13: u64,
    pub r12: u64,
    /// The base pointer of the current stack frame.
    pub rbp: u64,
    pub rbx: u64,
    pub r11: u64,
    pub r10: u64,
    pub r9: u64,
    pub r8: u64,
    pub rax: u64,
    pub rcx: u64,
    pub rdx: u64,
    pub rsi: u64,
    pub rdi: u64,
    pub orig_rax: u64,
    /// The program counter.
    pub rip: u64,
    pub cs: u64,
    pub eflags: u64,
    pub rsp: u64,
    pub ss: u64,
    pub fs_base: u64,
    pub gs_base: u64,
    pub ds: u64,
    pub es: u64,
    pub fs: u64,
    pub gs: u64,
}

/// A traced child process, known by its process identifier.
pub struct Inferior {
    pid: i32,
}

/// A change of state as the system reports it for a waited-for process.
#[derive(Clone, Copy, Debug, PartialEq, Eq, Structural)]
pub enum WaitEvent {
    /// The process exited with this code.
    Exited(i32),
    /// The process was killed by the signal with this number.
    Signaled(i32),
    /// The process was stopped by the signal with this number.
    Stopped(i32),
    /// Any other report.
    Other,
}

/// `nix::sys::ptrace::read`: asks the system for the word at `addr` in the
/// memory of process `pid`. Nothing is claimed of the answer.
#[verifier::external_body]
fn peek_word(pid: i32, addr: usize) -> (word: Result<u64, nix::errno::Errno>)
    requires
        pid > 0,
{
    match nix::sys::ptrace::read(
        nix::unistd::Pid::from_raw(pid),
        addr as nix::sys::ptrace::AddressType,
    ) {
        Ok(word) => Ok(word as u64),
        Err(errno) => Err(errno),
    }
}

/// `nix::sys::ptrace::write`: asks the system to store `value` at `addr` in
/// the memory of process `pid`. Nothing is claimed of the answer.
#[verifier::external_body]
fn poke_word(pid: i32, addr: usize, value: u64) -> (done: Result<(), nix::errno::Errno>)
    requires
        pid > 0,
{
    nix::sys::ptrace::write(
        nix::unistd::Pid::from_raw(pid),
        addr as nix::sys::ptrace::AddressType,
        value as nix::libc::c_long,
    )
}

/// `nix::sys::ptrace::getregs`: asks the system for the registers of
/// process `pid`, and hands them on field by field. Nothing is claimed of
/// the answer.
#[verifier::external_body]
fn fetch_registers(pid: i32) -> (registers: Result<Registers, Errno>)
    requires
        pid > 0,
{
    match getregs(Pid::from_raw(pid)) {
        Ok(r) => Ok(Registers {
            r15: r.r15, r14: r.r14, r13: r.r13, r12: r.r12, rbp: r.rbp, rbx: r.rbx, r11: r.r11,
            r10: r.r10, r9: r.r9, r8: r.r8, rax: r.rax, rcx: r.rcx, rdx: r.rdx, rsi: r.rsi,
            rdi: r.rdi, orig_rax: r.orig_rax, rip: r.rip, cs: r.cs, eflags: r.eflags, rsp: r.rsp,
            ss: r.ss, fs_base: r.fs_base, gs_base: r.gs_base, ds: r.ds, es: r.es, fs: r.fs, gs: r.gs,
        }),
        Err(errno) => Err(errno),
    }
}

/// `nix::sys::ptrace::setregs`: asks the system to load the registers of
/// process `pid` with `r`, field by field. Nothing is claimed of the
/// answer.
#[verifier::external_body]
fn store_registers(pid: i32, r: Registers) -> (done: Result<(), Errno>)
    requires
        pid > 0,
{
    setregs(Pid::from_raw(pid), user_regs_struct {
        r15: r.r15, r14: r.r14, r13: r.r13, r12: r.r12, rbp: r.rbp, rbx: r.rbx, r11: r.r11,
        r10: r.r10, r9: r.r9, r8: r.r8, rax: r.rax, rcx: r.rcx, rdx: r.rdx, rsi: r.rsi,
        rdi: r.rdi, orig_rax: r.orig_rax, rip: r.rip, cs: r.cs, eflags: r.eflags, rsp: r.rsp,
        ss: r.ss, fs_base: r.fs_base, gs_base: r.gs_base, ds: r.ds, es: r.es, fs: r.fs, gs: r.gs,
    })
}

/// The program counter that a register set holds.
pub fn program_counter_of(registers: &Registers) -> (pc: usize)
    ensures
        pc == registers.rip as usize,
{
    #[verifier::truncate]
    (registers.rip as usize)
}

/// The base pointer that a register set holds.
pub fn base_pointer_of(registers: &Registers) -> (bp: usize)
    ensures
        bp == registers.rbp as usize,
{
    #[verifier::truncate]
    (registers.rbp as usize)
}

/// The registers `registers` with the program counter at `pc` and every
/// other register as it is.
pub fn with_program_counter(registers: Registers, pc: usize) -> (changed: Registers)
    ensures
        changed == (Registers { rip: pc as u64, ..registers }),
{
    Registers { rip: pc as u64, ..registers }
}

/// `nix::sys::ptrace::step`: asks the system to let process `pid` execute
/// one instruction, delivering no signal. Nothing is claimed of the answer.
#[verifier::external_body]
fn single_step(pid: i32) -> (done: Result<(), nix::errno::Errno>)
    requires
        pid > 0,
{
    nix::sys::ptrace::step(nix::unistd::Pid::from_raw(pid), None)
}

/// `nix::sys::ptrace::cont`: asks the system to let process `pid` run,
/// delivering no signal. Nothing is claimed of the answer.
#[verifier::external_body]
fn run_on(pid: i32) -> (done: Result<(), nix::errno::Errno>)
    requires
        pid > 0,
{
    nix::sys::ptrace::cont(nix::unistd::Pid::from_raw(pid), None)
}

/// `nix::sys::wait::waitpid` without options: blocks until process `pid`
/// changes state. The report comes back variant by variant, signals as
/// their numbers. Nothing is claimed of which report it is.
#[verifier::external_body]
fn wait_for_change(pid: i32) -> (event: Result<WaitEvent, nix::errno::Errno>)
    requires
        pid > 0,
{
    match nix::sys::wait::waitpid(nix::unistd::Pid::from_raw(pid), None) {
        Ok(nix::sys::wait::WaitStatus::Exited(_, code)) => Ok(WaitEvent::Exited(code)),
        Ok(nix::sys::wait::WaitStatus::Signaled(_, signal, _)) => Ok(
            WaitEvent::Signaled(signal as i32),
        ),
        Ok(nix::sys::wait::WaitStatus::Stopped(_, signal)) => Ok(WaitEvent::Stopped(signal as i32)),
        Ok(_) => Ok(WaitEvent::Other),
        Err(errno) => Err(errno),
    }
}

/// `nix::sys::signal::kill` with `SIGKILL`: asks the system to end process
/// `pid`. Nothing is claimed of the answer.
#[verifier::external_body]
fn send_kill(pid: i32) -> (done: Result<(), nix::errno::Errno>)
    requires
        pid > 0,
{
    nix::sys::signal::kill(nix::unistd::Pid::from_raw(pid), nix::sys::signal::Signal::SIGKILL)
}

/// The number of an error of the system.
#[verifier::external_body]
fn errno_number(errno: nix::errno::Errno) -> (number: i32) {
    errno as i32
}

/// The state that a report of the system stands for, given the program
/// counter read after a stop. A report that is neither an exit, nor a
/// termination by signal, nor a stop stands for none.
pub open spec fn status_of(event: WaitEvent, pc: usize) -> Result<Status, ControlError> {
    match event {
        WaitEvent::Exited(code) => Ok(Status::Exited(code)),
        WaitEvent::Signaled(signal) => Ok(Status::Signaled(signal)),
        WaitEvent::Stopped(signal) => Ok(Status::Stopped(signal, pc)),
        WaitEvent::Other => Err(ControlError::UnexpectedState),
    }
}

/// Turns a report of the system into the state of the process.
pub fn classify(event: WaitEvent, pc: usize) -> (status: Result<Status, ControlError>)
    ensures
        status == status_of(event, pc),
{
    match event {
        WaitEvent::Exited(code) => Ok(Status::Exited(code)),
        WaitEvent::Signaled(signal) => Ok(Status::Signaled(signal)),
        WaitEvent::Stopped(signal) => Ok(Status::Stopped(signal, pc)),
        WaitEvent::Other => Err(ControlError::UnexpectedState),
    }
}

/// The state that a report of the system stands for, given the outcome of
/// reading the registers. The registers are read after a stop and only
/// then: a stop rests at the program counter they hold and fails where
/// they could not be read; any other report stands for itself.
pub open spec fn settled(event: WaitEvent, registers: Option<Result<Registers, ControlError>>) -> Result<
    Status,
    ControlError,
> {
    match (event, registers) {
        (WaitEvent::Stopped(signal), Some(Ok(r))) => Ok(Status::Stopped(signal, r.rip as usize)),
        (_, Some(Err(e))) => Err(e),
        _ => status_of(event, 0),
    }
}

/// Turns a report of the system and the outcome of reading the registers,
/// which has to be there after a stop and only then, into the state of the
/// process.
pub fn settle(event: WaitEvent, registers: Option<Result<Registers, ControlError>>) -> (status: Result<
    Status,
    ControlError,
>)
    requires
        registers is Some <==> event is Stopped,
    ensures
        status == settled(event, registers),
{
    match registers {
        Some(Ok(r)) => classify(event, program_counter_of(&r)),
        Some(Err(e)) => Err(e),
        None => classify(event, 0),
    }
}

/// The outcome of a request that the system refused with `errno`, where
/// the error number `pardoned` only says that there was nothing left to do.
pub fn pardon(operation: Operation, errno: i32, pardoned: i32) -> (done: Result<(), ControlError>)
    ensures
        done == if errno == pardoned {
            Ok::<(), ControlError>(())
        } else {
            Err(refused(operation, errno))
        },
{
    if errno == pardoned {
        Ok(())
    } else {
        Err(ControlError::Refused { operation, errno })
    }
}

impl Inferior {
    #[verifier::type_invariant]
    spec fn named(self) -> bool {
        self.pid > 0
    }

    /// A handle on the process with identifier `pid`; `None` unless `pid`
    /// names a single process, that is, unless it is positive.
    pub fn from_pid(pid: i32) -> (inferior: Option<Inferior>)
        ensures
            pid > 0 ==> (inferior matches Some(i) && i.spec_pid() == pid),
            pid <= 0 ==> inferior is None,
    {
        if pid > 0 {
            Some(Inferior { pid })
        } else {
            None
        }
    }

    /// Takes over the process `pid`, which has just been started under
    /// trace: waits for its first stop and arms every breakpoint of the
    /// table. `None` if `pid` names no single process or the launch fails;
    /// a process that fails to launch is killed.
    pub fn new(pid: i32, break_points: &mut BreakpointTable) -> (inferior: Option<Inferior>)
        ensures
            same_addresses(old(break_points)@, final(break_points)@),
            pid <= 0 ==> inferior is None && final(break_points)@ == old(break_points)@,
            inferior matches Some(i) ==> i.spec_pid() == pid && all_armed(final(break_points)@),
    {
        match Inferior::from_pid(pid) {
            None => None,
            Some(mut inferior) => match launch(&mut inferior, break_points) {
                Ok(_) => Some(inferior),
                Err(_) => None,
            },
        }
    }

    /// The process identifier, a positive number.
    pub fn pid(&self) -> (pid: i32)
        ensures
            pid == self.spec_pid(),
            pid > 0,
    {
        proof {
            use_type_invariant(self);
        }
        self.pid
    }

    /// Blocks until the process changes state and says how. After a stop
    /// the program counter is read from the registers. A refusal comes
    /// from the wait itself or from reading the registers.
    pub fn wait(&self) -> (status: Result<Status, ControlError>)
        ensures
            status matches Err(ControlError::Refused { operation, .. }) ==> operation
                == Operation::Wait || operation == Operation::ReadRegisters,
    {
        let event = match wait_for_change(self.pid()) {
            Err(errno) => {
                return Err(
                    ControlError::Refused { operation: Operation::Wait, errno: errno_number(errno) },
                );
            },
            Ok(event) => event,
        };
        let registers = match event {
            WaitEvent::Stopped(_) => Some(self.registers()),
            _ => None,
        };
        settle(event, registers)
    }

    /// Reads the registers of the process.
    fn registers(&self) -> (registers: Result<Registers, ControlError>)
        ensures
            registers matches Err(e) ==> e matches ControlError::Refused { operation, .. }
                && operation == Operation::ReadRegisters,
    {
        match fetch_registers(self.pid()) {
            Ok(registers) => Ok(registers),
            Err(errno) => Err(
                ControlError::Refused {
                    operation: Operation::ReadRegisters,
                    errno: errno_number(errno),
                },
            ),
        }
    }

    /// Ends the process by force and collects it. A process that is gone
    /// already, or has been collected already, is no error: the kill is
    /// never refused for want of the process, nor the wait for want of a
    /// child.
    pub fn kill(&mut self) -> (done: Result<(), ControlError>)
        ensures
            final(self).spec_pid() == old(self).spec_pid(),
            match done {
                Ok(()) => true,
                Err(ControlError::Refused { operation, errno }) => (operation == Operation::Kill
                    && errno != ESRCH) || (operation == Operation::Wait && errno != ECHILD),
                Err(ControlError::UnexpectedState) => false,
            },
    {
        match send_kill(self.pid()) {
            Err(errno) => pardon(Operation::Kill, errno_number(errno), ESRCH),
            Ok(()) => match wait_for_change(self.pid()) {
                Err(errno) => pardon(Operation::Wait, errno_number(errno), ECHILD),
                Ok(_) => Ok(()),
            },
        }
    }

    /// Lets the stopped process go on, stepping over the breakpoint it has
    /// trapped on if there is one, and returns its next state.
    ///
    /// It fails where the registers cannot be read, where resuming is
    /// refused and where the wait fails. Memory and the program counter are
    /// written only to step over an armed breakpoint: only with a table
    /// that holds one can it fail on them.
    pub fn wake_up(&mut self, break_points: &BreakpointTable) -> (status: Result<Status, ControlError>)
        ensures
            final(self).spec_pid() == old(self).spec_pid(),
            status matches Err(e) ==> e.fails_wake_up(),
            none_armed(break_points@) ==> (status matches Err(e) ==> e.fails_run()),
    {
        wake_up(self, break_points)
    }

    /// The call stack of the stopped process, innermost frame first, for
    /// the caller to print. Each frame is what the symbols give for a
    /// program counter of the chain, and the last is that of the entry
    /// function. The walk fails where the registers or a word of the stack
    /// cannot be read, at a program counter that the symbols do not cover,
    /// and at a frame that the chain comes to for the second time.
    pub fn print_backtrace(&self, debug: &SymbolTable) -> (stack: Result<
        Vec<StackFrame>,
        BacktraceError,
    >)
        ensures
            stack matches Ok(frames) ==> ends_at_entry(frames@, debug@) && resolved(
                frames@,
                debug@,
            ),
            match stack {
                Ok(_) => true,
                Err(BacktraceError::Control(e)) => e.refuses(Operation::ReadRegisters) || e.refuses(
                    Operation::ReadMemory,
                ),
                Err(BacktraceError::Unresolved(pc)) => frame_at(debug@, pc) is None,
                Err(BacktraceError::BrokenChain(_)) => true,
            },
    {
        backtrace(self, debug)
    }
}

impl ProcessController for Inferior {
    open spec fn model(&self) -> Option<ProcessModel> {
        None
    }

    closed spec fn spec_pid(&self) -> i32 {
        self.pid
    }

    fn pid(&self) -> (pid: i32) {
        Inferior::pid(self)
    }

    fn read_word(&self, addr: usize) -> (word: Result<u64, ControlError>) {
        match peek_word(self.pid(), addr) {
            Ok(word) => Ok(word),
            Err(errno) => Err(
                ControlError::Refused {
                    operation: Operation::ReadMemory,
                    errno: errno_number(errno),
                },
            ),
        }
    }

    fn write_word(&mut self, addr: usize, value: u64) -> (done: Result<(), ControlError>) {
        match poke_word(self.pid(), addr, value) {
            Ok(()) => Ok(()),
            Err(errno) => Err(
                ControlError::Refused {
                    operation: Operation::WriteMemory,
                    errno: errno_number(errno),
                },
            ),
        }
    }

    fn program_counter(&self) -> (pc: Result<usize, ControlError>) {
        match self.registers() {
            Ok(registers) => Ok(program_counter_of(&registers)),
            Err(e) => Err(e),
        }
    }

    fn base_pointer(&self) -> (bp: Result<usize, ControlError>) {
        match self.registers() {
            Ok(registers) => Ok(base_pointer_of(&registers)),
            Err(e) => Err(e),
        }
    }

    fn set_program_counter(&mut self, addr: usize) -> (done: Result<(), ControlError>) {
        let registers = match self.registers() {
            Ok(registers) => registers,
            Err(e) => {
                return Err(e);
            },
        };
        match store_registers(self.pid(), with_program_counter(registers, addr)) {
            Ok(()) => Ok(()),
            Err(errno) => Err(
                ControlError::Refused {
                    operation: Operation::WriteRegisters,
                    errno: errno_number(errno),
                },
            ),
        }
    }

    fn resume(&mut self, singlestep: bool) -> (done: Result<(), ControlError>) {
        let asked = if singlestep {
            single_step(self.pid())
        } else {
            run_on(self.pid())
        };
        match asked {
            Ok(()) => Ok(()),
            Err(errno) => Err(
                ControlError::Refused { operation: Operation::Resume, errno: errno_number(errno) },
            ),
        }
    }

    fn wait(&mut self) -> (status: Result<Status, ControlError>) {
        Inferior::wait(self)
    }

    fn kill(&mut self) -> (done: Result<(), ControlError>)
        ensures
            match done {
                Ok(()) => true,
                Err(ControlError::Refused { operation, errno }) => (operation == Operation::Kill
                    && errno != ESRCH) || (operation == Operation::Wait && errno != ECHILD),
                Err(ControlError::UnexpectedState) => false,
            },
    {
        Inferior::kill(self)
    }
}

} // verus!
