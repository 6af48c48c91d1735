//! The interface through which the debugger controls its target, and a
//! mathematical model of a target behind that interface.

use crate::status::{ControlError, Operation, Status, ECHILD, EFAULT, ESRCH};
use crate::word::{
    align_addr_to_word, byte_at, byte_offset, extract_byte, replace_byte, with_byte, word_base,
    word_offset,
};
use vstd::prelude::*;

verus! {

/// Whether a process can be inspected.
#[derive(Clone, Copy, Debug, PartialEq, Eq, Structural)]
pub enum Phase {
    /// Executing; memory and registers are out of reach until it stops.
    Running,
    /// At rest; memory and registers may be read and written.
    Stopped,
    /// Ended, by itself or by force.
    Gone,
}

/// One resumption of a process, as the process saw it.
#[derive(Clone, Copy, Debug, PartialEq, Eq, Structural)]
pub struct Resumption {
    /// Whether exactly one instruction was asked for.
    pub singlestep: bool,
    /// The program counter at which execution went on.
    pub pc: usize,
    /// The instruction byte found there, if that address is mapped.
    pub opcode: Option<u8>,
}

/// A model of a traced process: its memory and registers, the state changes
/// that it will go through, and the resumptions it has been given.
pub struct ProcessModel {
    /// The words of mapped memory, by their word-aligned addresses.
    pub memory: Map<usize, u64>,
    /// The program counter.
    pub pc: usize,
    /// The base pointer of the current stack frame.
    pub bp: usize,
    /// Whether the process runs, rests or is gone.
    pub phase: Phase,
    /// The state changes still to come, next first.
    pub script: Seq<Status>,
    /// The resumptions made so far, oldest first.
    pub resumptions: Seq<Resumption>,
}

/// The refusal of `operation` with error number `errno`.
pub open spec fn refused(operation: Operation, errno: i32) -> ControlError {
    ControlError::Refused { operation, errno }
}

impl ProcessModel {
    /// The byte at `addr`, or `None` where no memory is mapped.
    pub open spec fn byte(self, addr: usize) -> Option<u8> {
        if self.memory.contains_key(word_base(addr)) {
            Some(byte_at(self.memory[word_base(addr)], word_offset(addr)))
        } else {
            None
        }
    }

    /// Reading a word: the word mapped at `addr`, while the process rests.
    pub open spec fn read_word(self, addr: usize) -> Result<u64, ControlError> {
        if !(self.phase is Stopped) {
            Err(refused(Operation::ReadMemory, ESRCH))
        } else if !self.memory.contains_key(addr) {
            Err(refused(Operation::ReadMemory, EFAULT))
        } else {
            Ok(self.memory[addr])
        }
    }

    /// Writing a word: the word mapped at `addr` becomes `value`, while the
    /// process rests.
    pub open spec fn write_word(self, addr: usize, value: u64) -> (Self, Result<(), ControlError>) {
        if !(self.phase is Stopped) {
            (self, Err(refused(Operation::WriteMemory, ESRCH)))
        } else if !self.memory.contains_key(addr) {
            (self, Err(refused(Operation::WriteMemory, EFAULT)))
        } else {
            (ProcessModel { memory: self.memory.insert(addr, value), ..self }, Ok(()))
        }
    }

    /// Reading the program counter, while the process rests.
    pub open spec fn program_counter(self) -> Result<usize, ControlError> {
        if self.phase is Stopped {
            Ok(self.pc)
        } else {
            Err(refused(Operation::ReadRegisters, ESRCH))
        }
    }

    /// Reading the base pointer, while the process rests.
    pub open spec fn base_pointer(self) -> Result<usize, ControlError> {
        if self.phase is Stopped {
            Ok(self.bp)
        } else {
            Err(refused(Operation::ReadRegisters, ESRCH))
        }
    }

    /// Moving the program counter to `addr`, while the process rests.
    pub open spec fn set_program_counter(self, addr: usize) -> (Self, Result<(), ControlError>) {
        if self.phase is Stopped {
            (ProcessModel { pc: addr, ..self }, Ok(()))
        } else {
            (self, Err(refused(Operation::WriteRegisters, ESRCH)))
        }
    }

    /// Resuming: a process at rest starts to run, and the resumption is
    /// recorded with the instruction byte it starts on.
    pub open spec fn resume(self, singlestep: bool) -> (Self, Result<(), ControlError>) {
        if self.phase is Stopped {
            let resumption = Resumption { singlestep, pc: self.pc, opcode: self.byte(self.pc) };
            (
                ProcessModel {
                    phase: Phase::Running,
                    resumptions: self.resumptions.push(resumption),
                    ..self
                },
                Ok(()),
            )
        } else {
            (self, Err(refused(Operation::Resume, ESRCH)))
        }
    }

    /// Waiting: a running process goes through its next state change. A
    /// stop puts it at rest at the reported program counter; an exit or a
    /// termination leaves it gone.
    pub open spec fn wait(self) -> (Self, Result<Status, ControlError>) {
        if self.phase is Running && self.script.len() > 0 {
            let status = self.script[0];
            let rest = self.script.skip(1);
            match status {
                Status::Stopped(_, pc) => (
                    ProcessModel { phase: Phase::Stopped, pc, script: rest, ..self },
                    Ok(status),
                ),
                _ => (ProcessModel { phase: Phase::Gone, script: rest, ..self }, Ok(status)),
            }
        } else {
            (self, Err(refused(Operation::Wait, ECHILD)))
        }
    }

    /// Killing: the process is gone, whatever it was doing.
    pub open spec fn kill(self) -> (Self, Result<(), ControlError>) {
        (ProcessModel { phase: Phase::Gone, ..self }, Ok(()))
    }

    /// Patching a byte: the word that holds `addr` is read and written back
    /// with the byte at `addr` replaced; the result is the byte displaced.
    pub open spec fn patch_byte(self, addr: usize, byte: u8) -> (Self, Result<u8, ControlError>) {
        match self.read_word(word_base(addr)) {
            Err(e) => (self, Err(e)),
            Ok(word) => {
                let patched = with_byte(word, word_offset(addr), byte);
                (
                    ProcessModel { memory: self.memory.insert(word_base(addr), patched), ..self },
                    Ok(byte_at(word, word_offset(addr))),
                )
            },
        }
    }
}

/// Whether `after` and `outcome` are what `step` makes of `before`, for a
/// process with a model; a process without one stays without.
pub open spec fn follows<T>(
    before: Option<ProcessModel>,
    after: Option<ProcessModel>,
    outcome: T,
    step: (ProcessModel, T),
) -> bool {
    match before {
        Some(_) => after == Some(step.0) && outcome == step.1,
        None => after is None,
    }
}

/// Control over one traced process.
///
/// A controller may come with a model of its process. Where it does, every
/// operation does to the model, and returns, what the model says. Where it
/// does not, an operation may fail or succeed as the system decides. Either
/// way the controller stays with the process it was made for.
pub trait ProcessController {
    /// The model of the process, if this controller has one.
    spec fn model(&self) -> Option<ProcessModel>;

    /// The process identifier, which no operation changes.
    spec fn spec_pid(&self) -> i32;

    /// The process identifier.
    fn pid(&self) -> (pid: i32)
        ensures
            pid == self.spec_pid(),
    ;

    /// Reads the word at the word-aligned address `addr`. The only
    /// failure is that reading memory is refused.
    fn read_word(&self, addr: usize) -> (word: Result<u64, ControlError>)
        ensures
            word matches Err(e) ==> e.refuses(Operation::ReadMemory),
            self.model() matches Some(m) ==> word == m.read_word(addr),
    ;

    /// Writes `value` to the word at the word-aligned address `addr`. The
    /// only failure is that writing memory is refused.
    fn write_word(&mut self, addr: usize, value: u64) -> (done: Result<(), ControlError>)
        ensures
            final(self).spec_pid() == old(self).spec_pid(),
            done matches Err(e) ==> e.refuses(Operation::WriteMemory),
            follows(
                old(self).model(),
                final(self).model(),
                done,
                old(self).model().unwrap().write_word(addr, value),
            ),
    ;

    /// Reads the program counter. The only failure is that reading the
    /// registers is refused.
    fn program_counter(&self) -> (pc: Result<usize, ControlError>)
        ensures
            pc matches Err(e) ==> e.refuses(Operation::ReadRegisters),
            self.model() matches Some(m) ==> pc == m.program_counter(),
    ;

    /// Reads the base pointer of the current stack frame. The only
    /// failure is that reading the registers is refused.
    fn base_pointer(&self) -> (bp: Result<usize, ControlError>)
        ensures
            bp matches Err(e) ==> e.refuses(Operation::ReadRegisters),
            self.model() matches Some(m) ==> bp == m.base_pointer(),
    ;

    /// Moves the program counter to `addr`. The other registers are read
    /// and written back as they are, so the only failures are that reading
    /// or writing the registers is refused.
    fn set_program_counter(&mut self, addr: usize) -> (done: Result<(), ControlError>)
        ensures
            final(self).spec_pid() == old(self).spec_pid(),
            done matches Err(e) ==> e.refuses(Operation::ReadRegisters) || e.refuses(
                Operation::WriteRegisters,
            ),
            follows(
                old(self).model(),
                final(self).model(),
                done,
                old(self).model().unwrap().set_program_counter(addr),
            ),
    ;

    /// Lets the process run: for one instruction if `singlestep`, else
    /// until something stops it. The only failure is that resuming is
    /// refused.
    fn resume(&mut self, singlestep: bool) -> (done: Result<(), ControlError>)
        ensures
            final(self).spec_pid() == old(self).spec_pid(),
            done matches Err(e) ==> e.refuses(Operation::Resume),
            follows(
                old(self).model(),
                final(self).model(),
                done,
                old(self).model().unwrap().resume(singlestep),
            ),
    ;

    /// Blocks until the process changes state and says how. It fails
    /// where the wait is refused, where the program counter cannot be read
    /// after a stop, and where the change is none that is known.
    fn wait(&mut self) -> (status: Result<Status, ControlError>)
        ensures
            final(self).spec_pid() == old(self).spec_pid(),
            status matches Err(e) ==> e.fails_wait(),
            follows(old(self).model(), final(self).model(), status, old(self).model().unwrap().wait()),
    ;

    /// Ends the process by force and collects it. Killing a process that
    /// is gone already is no error. It fails where the kill is refused and
    /// where collecting the process is.
    fn kill(&mut self) -> (done: Result<(), ControlError>)
        ensures
            final(self).spec_pid() == old(self).spec_pid(),
            done matches Err(e) ==> e.fails_kill(),
            follows(old(self).model(), final(self).model(), done, old(self).model().unwrap().kill()),
    ;
}

/// Replaces the byte at `addr` by `byte` and returns the byte that was
/// there. Memory moves in whole words: the word around `addr` is read,
/// changed in that one byte, and written back. It fails where reading or
/// writing that word is refused.
pub fn patch_byte<P: ProcessController>(process: &mut P, addr: usize, byte: u8) -> (displaced:
    Result<u8, ControlError>)
    ensures
        final(process).spec_pid() == old(process).spec_pid(),
        displaced matches Err(e) ==> e.fails_memory(),
        follows(
            old(process).model(),
            final(process).model(),
            displaced,
            old(process).model().unwrap().patch_byte(addr, byte),
        ),
{
    let base = align_addr_to_word(addr);
    let offset = byte_offset(addr);
    let word = match process.read_word(base) {
        Ok(word) => word,
        Err(e) => {
            return Err(e);
        },
    };
    let displaced = extract_byte(word, offset);
    match process.write_word(base, replace_byte(word, offset, byte)) {
        Ok(()) => Ok(displaced),
        Err(e) => Err(e),
    }
}

/// After a byte has been patched, memory shows the new byte at that
/// address and every other byte as before, and the byte returned is the one
/// that was there.
pub proof fn law_patch_byte(m: ProcessModel, addr: usize, byte: u8, other: usize)
    requires
        m.patch_byte(addr, byte).1 is Ok,
    ensures
        m.patch_byte(addr, byte).0.byte(addr) == Some(byte),
        m.byte(addr) == Some(m.patch_byte(addr, byte).1->Ok_0),
        other != addr ==> m.patch_byte(addr, byte).0.byte(other) == m.byte(other),
        m.patch_byte(addr, byte).0.memory.dom() == m.memory.dom(),
{
    let base = word_base(addr);
    let offset = word_offset(addr);
    let word = m.memory[base];
    crate::word::law_patched_byte_reads_back(word, offset, byte);
    if other != addr && word_base(other) == base {
        crate::word::law_patch_keeps_other_bytes(word, offset, byte, word_offset(other));
    }
    assert(m.memory.insert(base, with_byte(word, offset, byte)).dom() =~= m.memory.dom());
}

/// Patching a byte and then patching back the byte it displaced restores
/// memory exactly.
pub proof fn law_patch_round_trip(m: ProcessModel, addr: usize, byte: u8)
    requires
        m.patch_byte(addr, byte).1 is Ok,
    ensures
        ({
            let (patched, displaced) = m.patch_byte(addr, byte);
            let (restored, trap) = patched.patch_byte(addr, displaced->Ok_0);
            &&& trap == Ok::<u8, ControlError>(byte)
            &&& restored == m
        }),
{
    let base = word_base(addr);
    let offset = word_offset(addr);
    let word = m.memory[base];
    let (patched, displaced) = m.patch_byte(addr, byte);
    let (restored, trap) = patched.patch_byte(addr, displaced->Ok_0);
    crate::word::law_patched_byte_reads_back(word, offset, byte);
    crate::word::law_patch_round_trip(word, offset, byte);
    assert(restored.memory =~= m.memory);
}

} // verus!
