//! A process that exists only in memory and follows a script.
//!
//! It holds a memory image and registers, and goes through a prepared list
//! of state changes, one for each wait. It behaves exactly as the model of
//! a traced process says, so whatever is proved of the model can be watched
//! on it, and the debugger can be exercised without a live target.

use crate::process::{Phase, ProcessController, ProcessModel, Resumption};
use crate::status::{ControlError, Operation, Status, ECHILD, EFAULT, ESRCH};
use crate::word::{align_addr_to_word, byte_offset, extract_byte};
use std::collections::HashMap;
use std::collections::VecDeque;
use vstd::prelude::*;

verus! {

broadcast use vstd::std_specs::hash::group_hash_axioms;

/// A scripted stand-in for a traced process.
pub struct ScriptedProcess {
    pid: i32,
    memory: HashMap<usize, u64>,
    pc: usize,
    bp: usize,
    phase: Phase,
    script: VecDeque<Status>,
    resumptions: Vec<Resumption>,
}

impl ScriptedProcess {
    /// The state of the process.
    pub closed spec fn state(&self) -> ProcessModel {
        ProcessModel {
            memory: self.memory@,
            pc: self.pc,
            bp: self.bp,
            phase: self.phase,
            script: self.script@,
            resumptions: self.resumptions@,
        }
    }

    /// A process that has just been started: it runs, with the given
    /// registers, no mapped memory and nothing to happen to it yet.
    pub fn new(pid: i32, pc: usize, bp: usize) -> (process: ScriptedProcess)
        ensures
            process.spec_pid() == pid,
            process.state() == (ProcessModel {
                memory: Map::empty(),
                pc,
                bp,
                phase: Phase::Running,
                script: Seq::empty(),
                resumptions: Seq::empty(),
            }),
    {
        ScriptedProcess {
            pid,
            memory: HashMap::new(),
            pc,
            bp,
            phase: Phase::Running,
            script: VecDeque::new(),
            resumptions: Vec::new(),
        }
    }

    /// Maps the word at `addr` and gives it the value `value`.
    pub fn map_word(&mut self, addr: usize, value: u64)
        ensures
            final(self).spec_pid() == old(self).spec_pid(),
            final(self).state() == (ProcessModel {
                memory: old(self).state().memory.insert(addr, value),
                ..old(self).state()
            }),
    {
        self.memory.insert(addr, value);
    }

    /// Appends `status` to the state changes that the process will go
    /// through.
    pub fn expect(&mut self, status: Status)
        ensures
            final(self).spec_pid() == old(self).spec_pid(),
            final(self).state() == (ProcessModel {
                script: old(self).state().script.push(status),
                ..old(self).state()
            }),
    {
        self.script.push_back(status);
    }

    /// Whether the process runs, rests or is gone.
    pub fn phase(&self) -> (phase: Phase)
        ensures
            phase == self.state().phase,
    {
        self.phase
    }

    /// The word mapped at `addr`, whatever the process is doing.
    pub fn word(&self, addr: usize) -> (word: Option<u64>)
        ensures
            word == if self.state().memory.contains_key(addr) {
                Some(self.state().memory[addr])
            } else {
                None
            },
    {
        match self.memory.get(&addr) {
            Some(word) => Some(*word),
            None => None,
        }
    }

    /// The byte at `addr`, whatever the process is doing.
    pub fn byte(&self, addr: usize) -> (byte: Option<u8>)
        ensures
            byte == self.state().byte(addr),
    {
        match self.word(align_addr_to_word(addr)) {
            Some(word) => Some(extract_byte(word, byte_offset(addr))),
            None => None,
        }
    }

    /// The number of state changes that have not happened yet.
    pub fn pending(&self) -> (count: usize)
        ensures
            count == self.state().script.len(),
    {
        self.script.len()
    }

    /// The resumptions that the process has been given, oldest first.
    pub fn resumptions(&self) -> (log: Vec<Resumption>)
        ensures
            log@ == self.state().resumptions,
    {
        let mut log: Vec<Resumption> = Vec::new();
        let mut i: usize = 0;
        while i < self.resumptions.len()
            invariant
                i <= self.resumptions@.len(),
                log@ == self.resumptions@.take(i as int),
            decreases self.resumptions@.len() - i,
        {
            log.push(self.resumptions[i]);
            assert(log@ =~= self.resumptions@.take(i + 1));
            i += 1;
        }
        assert(self.resumptions@.take(i as int) =~= self.resumptions@);
        log
    }
}

impl ProcessController for ScriptedProcess {
    open spec fn model(&self) -> Option<ProcessModel> {
        Some(self.state())
    }

    closed spec fn spec_pid(&self) -> i32 {
        self.pid
    }

    fn pid(&self) -> (pid: i32) {
        self.pid
    }

    fn read_word(&self, addr: usize) -> (word: Result<u64, ControlError>) {
        match self.phase {
            Phase::Stopped => match self.word(addr) {
                Some(word) => Ok(word),
                None => Err(ControlError::Refused { operation: Operation::ReadMemory, errno: EFAULT }),
            },
            _ => Err(ControlError::Refused { operation: Operation::ReadMemory, errno: ESRCH }),
        }
    }

    fn write_word(&mut self, addr: usize, value: u64) -> (done: Result<(), ControlError>) {
        match self.phase {
            Phase::Stopped => match self.word(addr) {
                Some(_) => {
                    self.memory.insert(addr, value);
                    Ok(())
                },
                None => Err(ControlError::Refused { operation: Operation::WriteMemory, errno: EFAULT }),
            },
            _ => Err(ControlError::Refused { operation: Operation::WriteMemory, errno: ESRCH }),
        }
    }

    fn program_counter(&self) -> (pc: Result<usize, ControlError>) {
        match self.phase {
            Phase::Stopped => Ok(self.pc),
            _ => Err(ControlError::Refused { operation: Operation::ReadRegisters, errno: ESRCH }),
        }
    }

    fn base_pointer(&self) -> (bp: Result<usize, ControlError>) {
        match self.phase {
            Phase::Stopped => Ok(self.bp),
            _ => Err(ControlError::Refused { operation: Operation::ReadRegisters, errno: ESRCH }),
        }
    }

    fn set_program_counter(&mut self, addr: usize) -> (done: Result<(), ControlError>) {
        match self.phase {
            Phase::Stopped => {
                self.pc = addr;
                Ok(())
            },
            _ => Err(ControlError::Refused { operation: Operation::WriteRegisters, errno: ESRCH }),
        }
    }

    fn resume(&mut self, singlestep: bool) -> (done: Result<(), ControlError>) {
        match self.phase {
            Phase::Stopped => {
                let opcode = self.byte(self.pc);
                self.resumptions.push(Resumption { singlestep, pc: self.pc, opcode });
                self.phase = Phase::Running;
                Ok(())
            },
            _ => Err(ControlError::Refused { operation: Operation::Resume, errno: ESRCH }),
        }
    }

    fn wait(&mut self) -> (status: Result<Status, ControlError>) {
        match self.phase {
            Phase::Running => match self.script.pop_front() {
                Some(status) => {
                    assert(self.script@ =~= old(self).script@.skip(1));
                    match status {
                        Status::Stopped(_, pc) => {
                            self.phase = Phase::Stopped;
                            self.pc = pc;
                        },
                        _ => {
                            self.phase = Phase::Gone;
                        },
                    }
                    Ok(status)
                },
                None => Err(ControlError::Refused { operation: Operation::Wait, errno: ECHILD }),
            },
            _ => Err(ControlError::Refused { operation: Operation::Wait, errno: ECHILD }),
        }
    }

    fn kill(&mut self) -> (done: Result<(), ControlError>) {
        self.phase = Phase::Gone;
        Ok(())
    }
}

} // verus!
