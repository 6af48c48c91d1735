//! What a traced process reports, and how controlling it can fail.

use vstd::prelude::*;

verus! {

/// The number of the signal that a debug trap raises.
pub const SIGTRAP: i32 = 5;

/// Error number for a request on a process that is gone, is not traced, or
/// is not stopped.
pub const ESRCH: i32 = 3;

/// Error number for a wait when there is nothing left to wait for.
pub const ECHILD: i32 = 10;

/// Error number for an address outside the memory of the process.
pub const EFAULT: i32 = 14;

/// The state of a traced process after it has changed.
#[derive(Clone, Copy, Debug, PartialEq, Eq, Structural)]
pub enum Status {
    /// The process stopped: the number of the signal that stopped it, and
    /// the program counter at which it rests.
    Stopped(i32, usize),
    /// The process ended by itself, with this exit code.
    Exited(i32),
    /// The process was ended by the signal with this number.
    Signaled(i32),
}

/// The operation on a traced process that failed.
#[derive(Clone, Copy, Debug, PartialEq, Eq, Structural)]
pub enum Operation {
    ReadMemory,
    WriteMemory,
    ReadRegisters,
    WriteRegisters,
    Resume,
    Wait,
    Kill,
}

/// A failure to control a traced process.
#[derive(Clone, Copy, Debug, PartialEq, Eq, Structural)]
pub enum ControlError {
    /// The system refused `operation` with error number `errno`.
    Refused { operation: Operation, errno: i32 },
    /// A wait reported a change that is neither a stop, an exit nor a
    /// termination by signal.
    UnexpectedState,
}

impl ControlError {
    /// Whether this is the refusal of `operation`.
    pub open spec fn refuses(self, operation: Operation) -> bool {
        self matches ControlError::Refused { operation: refused, .. } && refused == operation
    }

    /// Whether this is a way for access to memory to fail: reading or
    /// writing a word was refused.
    pub open spec fn fails_memory(self) -> bool {
        self.refuses(Operation::ReadMemory) || self.refuses(Operation::WriteMemory)
    }

    /// Whether this is a way for a wait to fail: the wait was refused, or
    /// reading the program counter after a stop was refused, or the change
    /// reported is none that is known.
    pub open spec fn fails_wait(self) -> bool {
        self == ControlError::UnexpectedState || self.refuses(Operation::Wait) || self.refuses(
            Operation::ReadRegisters,
        )
    }

    /// Whether this is a way for a kill to fail: the kill was refused, or
    /// collecting the process was.
    pub open spec fn fails_kill(self) -> bool {
        self.refuses(Operation::Kill) || self.refuses(Operation::Wait)
    }

    /// Whether this is a way for resuming and then waiting to fail:
    /// resuming was refused, or the wait failed.
    pub open spec fn fails_run(self) -> bool {
        self.refuses(Operation::Resume) || self.fails_wait()
    }

    /// Whether this is a way for waking a process to fail: memory or the
    /// registers were refused while a breakpoint was stepped over, or
    /// resuming and waiting failed.
    pub open spec fn fails_wake_up(self) -> bool {
        self.fails_memory() || self.refuses(Operation::ReadRegisters) || self.refuses(
            Operation::WriteRegisters,
        ) || self.fails_run()
    }
}

impl Status {
    /// Whether the process stopped on a debug trap.
    pub open spec fn is_trap(self) -> bool {
        self matches Status::Stopped(signal, _) && signal == SIGTRAP
    }

    /// Whether the process stopped on a debug trap.
    pub fn stopped_on_trap(&self) -> (trap: bool)
        ensures
            trap == self.is_trap(),
    {
        match self {
            Status::Stopped(signal, _) => *signal == SIGTRAP,
            _ => false,
        }
    }
}

} // verus!
