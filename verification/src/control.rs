//! Launching and resuming a traced process in the presence of breakpoints.
//!
//! A software breakpoint is a trap opcode written over the first byte of an
//! instruction. When the trap is taken, the program counter rests one byte
//! past the breakpoint address and the instruction itself has not run. To
//! go on, the displaced byte is put back, the program counter is rewound,
//! the instruction is executed alone, and the trap is written again before
//! the process runs freely.

use crate::breakpoints::{
    address_set, distinct_addresses, has_address, lemma_slot_of, same_addresses, slot_of,
    Breakpoint, BreakpointTable, Slot,
};
use crate::process::{law_patch_byte, patch_byte, ProcessController, ProcessModel, Resumption};
use crate::status::{ControlError, Status};
use crate::word::{word_base, TRAP_LENGTH, TRAP_OPCODE};
use vstd::prelude::*;

verus! {

/// Why a launch failed.
#[derive(Clone, Copy, Debug, PartialEq, Eq, Structural)]
pub enum LaunchError {
    /// Waiting for the first stop of the process failed.
    Wait(ControlError),
    /// The first state change was not a stop on a debug trap.
    NotTrapped(Status),
    /// A breakpoint could not be written into the process.
    Arm(ControlError),
}

/// What follows the single step that executes a displaced instruction.
#[derive(Clone, Copy, Debug, PartialEq, Eq, Structural)]
pub enum AfterStep {
    /// The process stopped, on the trap of the step or on any other
    /// signal: write the breakpoint again, then let the process run.
    Rearm,
    /// The process is gone: report this state.
    Finished(Status),
}

/// The model and the table after breakpoints have been armed, and the
/// outcome of arming them.
pub struct Arming {
    pub process: ProcessModel,
    pub entries: Seq<Breakpoint>,
    pub outcome: Result<(), ControlError>,
}

/// The entry at position `index` once the trap has displaced `byte`.
pub open spec fn armed_entry(entries: Seq<Breakpoint>, index: int, byte: u8) -> Seq<Breakpoint> {
    entries.update(index, Breakpoint { address: entries[index].address, slot: Slot::Armed(byte) })
}

/// Arming the entries from position `from` on, one after the other: the
/// trap opcode is patched in at each address and the displaced byte is
/// stored in the entry. The first failure ends it.
pub open spec fn arm_from(m: ProcessModel, entries: Seq<Breakpoint>, from: int) -> Arming
    decreases entries.len() - from,
{
    if from < 0 || from >= entries.len() {
        Arming { process: m, entries, outcome: Ok(()) }
    } else {
        let (patched, displaced) = m.patch_byte(entries[from].address, TRAP_OPCODE);
        match displaced {
            Err(e) => Arming { process: m, entries, outcome: Err(e) },
            Ok(byte) => arm_from(patched, armed_entry(entries, from, byte), from + 1),
        }
    }
}

/// The armed breakpoint that a process resting at `pc` has just trapped
/// on, as its address and displaced byte: the breakpoint one trap length
/// before `pc`, if the table holds one there and it is armed.
pub open spec fn trapped_breakpoint(entries: Seq<Breakpoint>, pc: usize) -> Option<(usize, u8)> {
    if pc >= TRAP_LENGTH {
        match slot_of(entries, (pc - TRAP_LENGTH) as usize) {
            Some(Slot::Armed(byte)) => Some(((pc - TRAP_LENGTH) as usize, byte)),
            _ => None,
        }
    } else {
        None
    }
}

/// What to do once the single step has ended in `status`: a process that
/// lives gets its breakpoint back, whatever stopped it; the end of a
/// process is final.
pub open spec fn after_step(status: Status) -> AfterStep {
    match status {
        Status::Stopped(_, _) => AfterStep::Rearm,
        _ => AfterStep::Finished(status),
    }
}

/// Resuming and then waiting for the next state change.
pub open spec fn resume_and_wait(m: ProcessModel, singlestep: bool) -> (
    ProcessModel,
    Result<Status, ControlError>,
) {
    let (running, resumed) = m.resume(singlestep);
    match resumed {
        Err(e) => (running, Err(e)),
        Ok(()) => running.wait(),
    }
}

/// Stepping over the breakpoint at `addr`, whose trap displaced
/// `original`: the byte is put back, the program counter is set to `addr`,
/// and one instruction runs. If that ends in a stop, on whatever signal,
/// the trap opcode is written again. The outcome is the state in which the
/// process ended, or `None` while it lives.
pub open spec fn step_over(m: ProcessModel, addr: usize, original: u8) -> (
    ProcessModel,
    Result<Option<Status>, ControlError>,
) {
    let (restored, displaced) = m.patch_byte(addr, original);
    match displaced {
        Err(e) => (restored, Err(e)),
        Ok(_) => {
            let (rewound, moved) = restored.set_program_counter(addr);
            match moved {
                Err(e) => (rewound, Err(e)),
                Ok(()) => {
                    let (stepped, status) = resume_and_wait(rewound, true);
                    match status {
                        Err(e) => (stepped, Err(e)),
                        Ok(status) => match after_step(status) {
                            AfterStep::Finished(last) => (stepped, Ok(Some(last))),
                            AfterStep::Rearm => {
                                let (rearmed, trap) = stepped.patch_byte(addr, TRAP_OPCODE);
                                match trap {
                                    Err(e) => (rearmed, Err(e)),
                                    Ok(_) => (rearmed, Ok(None)),
                                }
                            },
                        },
                    }
                },
            }
        },
    }
}

/// Waking a stopped process: a breakpoint that it has just trapped on is
/// stepped over first; then, unless the step ended the process, it runs
/// until its next state change, which is the outcome.
pub open spec fn wake_up_model(m: ProcessModel, entries: Seq<Breakpoint>) -> (
    ProcessModel,
    Result<Status, ControlError>,
) {
    match m.program_counter() {
        Err(e) => (m, Err(e)),
        Ok(pc) => match trapped_breakpoint(entries, pc) {
            None => resume_and_wait(m, false),
            Some((addr, original)) => {
                let (stepped, ended) = step_over(m, addr, original);
                match ended {
                    Err(e) => (stepped, Err(e)),
                    Ok(Some(status)) => (stepped, Ok(status)),
                    Ok(None) => resume_and_wait(stepped, false),
                }
            },
        },
    }
}

/// The model and the table after a launch, and its outcome.
pub struct Launched {
    pub process: ProcessModel,
    pub entries: Seq<Breakpoint>,
    pub outcome: Result<Status, LaunchError>,
}

/// Launching: the first state change of the process has to be a stop on
/// the trap signal; then every breakpoint of the table is armed. A process
/// that fails either way is killed.
pub open spec fn launch_model(m: ProcessModel, entries: Seq<Breakpoint>) -> Launched {
    let (waited, first) = m.wait();
    match first {
        Err(e) => Launched { process: waited.kill().0, entries, outcome: Err(LaunchError::Wait(e)) },
        Ok(status) => if !status.is_trap() {
            Launched {
                process: waited.kill().0,
                entries,
                outcome: Err(LaunchError::NotTrapped(status)),
            }
        } else {
            let armed = arm_from(waited, entries, 0);
            match armed.outcome {
                Err(e) => Launched {
                    process: armed.process.kill().0,
                    entries: armed.entries,
                    outcome: Err(LaunchError::Arm(e)),
                },
                Ok(()) => Launched {
                    process: armed.process,
                    entries: armed.entries,
                    outcome: Ok(status),
                },
            }
        },
    }
}

/// Whether no entry of `entries` is armed.
pub open spec fn none_armed(entries: Seq<Breakpoint>) -> bool {
    forall|i: int| 0 <= i < entries.len() ==> !((#[trigger] entries[i]).slot is Armed)
}

/// A table without an armed entry has no armed slot for any address.
proof fn lemma_none_armed(entries: Seq<Breakpoint>, addr: usize)
    requires
        none_armed(entries),
    ensures
        !(slot_of(entries, addr) matches Some(Slot::Armed(_))),
    decreases entries.len(),
{
    if entries.len() > 0 {
        assert(!(entries[0].slot is Armed));
        let rest = entries.skip(1);
        assert forall|i: int| 0 <= i < rest.len() implies !((#[trigger] rest[i]).slot is Armed) by {
            assert(!(entries[i + 1].slot is Armed));
        }
        lemma_none_armed(rest, addr);
    }
}

/// Whether every entry of `entries` is armed.
pub open spec fn all_armed(entries: Seq<Breakpoint>) -> bool {
    forall|i: int| 0 <= i < entries.len() ==> (#[trigger] entries[i]).slot is Armed
}

/// Writes the trap opcode at every address of the table and stores each
/// displaced byte in its entry. Stops at the first address that cannot be
/// patched, with the refusal to read or write memory there; the entries
/// before it are armed by then.
pub fn arm_all<P: ProcessController>(process: &mut P, table: &mut BreakpointTable) -> (done:
    Result<(), ControlError>)
    ensures
        final(process).spec_pid() == old(process).spec_pid(),
        same_addresses(old(table)@, final(table)@),
        done is Ok ==> all_armed(final(table)@),
        done matches Err(e) ==> e.fails_memory(),
        match old(process).model() {
            Some(m) => {
                let armed = arm_from(m, old(table)@, 0);
                &&& final(process).model() == Some(armed.process)
                &&& final(table)@ == armed.entries
                &&& done == armed.outcome
            },
            None => final(process).model() is None,
        },
{
    let n = table.len();
    let mut i: usize = 0;
    while i < n
        invariant
            i <= n,
            n == table@.len(),
            process.spec_pid() == old(process).spec_pid(),
            same_addresses(old(table)@, table@),
            forall|k: int| 0 <= k < i ==> (#[trigger] table@[k]).slot is Armed,
            match old(process).model() {
                Some(m) => process.model() matches Some(now) && arm_from(m, old(table)@, 0)
                    == arm_from(now, table@, i as int),
                None => process.model() is None,
            },
        decreases n - i,
    {
        let address = table.entry(i).address;
        match patch_byte(process, address, TRAP_OPCODE) {
            Err(e) => {
                return Err(e);
            },
            Ok(byte) => {
                table.set_slot(i, Slot::Armed(byte));
            },
        }
        i += 1;
    }
    Ok(())
}

/// Finds the armed breakpoint that a process resting at `pc` has just
/// trapped on.
pub fn find_trapped_breakpoint(table: &BreakpointTable, pc: usize) -> (found: Option<(usize, u8)>)
    ensures
        found == trapped_breakpoint(table@, pc),
{
    if pc < TRAP_LENGTH {
        return None;
    }
    let candidate = pc - TRAP_LENGTH;
    match table.get(candidate) {
        Some(Slot::Armed(byte)) => Some((candidate, byte)),
        _ => None,
    }
}

/// Decides what follows the single step over a breakpoint.
pub fn decide_after_step(status: Status) -> (next: AfterStep)
    ensures
        next == after_step(status),
{
    match status {
        Status::Stopped(_, _) => AfterStep::Rearm,
        _ => AfterStep::Finished(status),
    }
}

/// Resumes the process and waits for its next state change. It fails
/// where resuming is refused and where the wait fails.
pub fn run_until_change<P: ProcessController>(process: &mut P, singlestep: bool) -> (status: Result<
    Status,
    ControlError,
>)
    ensures
        final(process).spec_pid() == old(process).spec_pid(),
        status matches Err(e) ==> e.fails_run(),
        match old(process).model() {
            Some(m) => final(process).model() == Some(resume_and_wait(m, singlestep).0) && status
                == resume_and_wait(m, singlestep).1,
            None => final(process).model() is None,
        },
{
    match process.resume(singlestep) {
        Err(e) => Err(e),
        Ok(()) => process.wait(),
    }
}

/// Executes the instruction under the breakpoint at `addr`, whose trap
/// displaced `original`, and arms the breakpoint again if the process
/// still lives after the step. Returns the state in which the process
/// ended, or `None` while it lives; a state returned is an exit or a
/// termination. It fails where memory or the registers are refused, where
/// resuming is, and where the wait fails.
pub fn step_over_breakpoint<P: ProcessController>(process: &mut P, addr: usize, original: u8) -> (ended:
    Result<Option<Status>, ControlError>)
    ensures
        final(process).spec_pid() == old(process).spec_pid(),
        ended matches Ok(Some(last)) ==> !(last is Stopped),
        ended matches Err(e) ==> e.fails_wake_up(),
        match old(process).model() {
            Some(m) => final(process).model() == Some(step_over(m, addr, original).0) && ended
                == step_over(m, addr, original).1,
            None => final(process).model() is None,
        },
{
    match patch_byte(process, addr, original) {
        Err(e) => {
            return Err(e);
        },
        Ok(_) => {},
    }
    match process.set_program_counter(addr) {
        Err(e) => {
            return Err(e);
        },
        Ok(()) => {},
    }
    let status = match run_until_change(process, true) {
        Err(e) => {
            return Err(e);
        },
        Ok(status) => status,
    };
    match decide_after_step(status) {
        AfterStep::Finished(last) => Ok(Some(last)),
        AfterStep::Rearm => match patch_byte(process, addr, TRAP_OPCODE) {
            Err(e) => Err(e),
            Ok(_) => Ok(None),
        },
    }
}

/// Lets a stopped process go on and returns its next state. If the process
/// rests just behind an armed breakpoint, the instruction under that
/// breakpoint is executed first and the breakpoint stays armed.
///
/// It fails where the registers cannot be read, where resuming is refused
/// and where the wait fails. Memory and the program counter are written
/// only to step over an armed breakpoint: only with a table that holds one
/// can it fail on them.
pub fn wake_up<P: ProcessController>(process: &mut P, table: &BreakpointTable) -> (status: Result<
    Status,
    ControlError,
>)
    ensures
        final(process).spec_pid() == old(process).spec_pid(),
        status matches Err(e) ==> e.fails_wake_up(),
        none_armed(table@) ==> (status matches Err(e) ==> e.fails_run()),
        match old(process).model() {
            Some(m) => final(process).model() == Some(wake_up_model(m, table@).0) && status
                == wake_up_model(m, table@).1,
            None => final(process).model() is None,
        },
{
    let pc = match process.program_counter() {
        Err(e) => {
            return Err(e);
        },
        Ok(pc) => pc,
    };
    proof {
        if none_armed(table@) && pc >= TRAP_LENGTH {
            lemma_none_armed(table@, (pc - TRAP_LENGTH) as usize);
        }
    }
    match find_trapped_breakpoint(table, pc) {
        None => {},
        Some((addr, original)) => {
            match step_over_breakpoint(process, addr, original) {
                Err(e) => {
                    return Err(e);
                },
                Ok(Some(status)) => {
                    return Ok(status);
                },
                Ok(None) => {},
            }
        },
    }
    run_until_change(process, false)
}

/// Takes over a process that has just been started under trace: waits for
/// its first stop, which has to be a debug trap, and arms every breakpoint
/// of the table. Returns that first stop. A process that fails to launch is
/// killed.
///
/// The launch fails where the wait fails, which leaves the table as it
/// is; where the first state change is no stop on a trap, which leaves the
/// table as it is too; and where memory is refused while arming.
pub fn launch<P: ProcessController>(process: &mut P, table: &mut BreakpointTable) -> (first: Result<
    Status,
    LaunchError,
>)
    ensures
        final(process).spec_pid() == old(process).spec_pid(),
        same_addresses(old(table)@, final(table)@),
        first matches Ok(status) ==> status.is_trap() && all_armed(final(table)@),
        match first {
            Ok(_) => true,
            Err(LaunchError::Wait(e)) => e.fails_wait() && final(table)@ == old(table)@,
            Err(LaunchError::NotTrapped(status)) => !status.is_trap() && final(table)@ == old(
                table,
            )@,
            Err(LaunchError::Arm(e)) => e.fails_memory(),
        },
        match old(process).model() {
            Some(m) => {
                let launched = launch_model(m, old(table)@);
                &&& final(process).model() == Some(launched.process)
                &&& final(table)@ == launched.entries
                &&& first == launched.outcome
            },
            None => final(process).model() is None,
        },
{
    let status = match process.wait() {
        Err(e) => {
            let _ = process.kill();
            return Err(LaunchError::Wait(e));
        },
        Ok(status) => status,
    };
    if !status.stopped_on_trap() {
        let _ = process.kill();
        return Err(LaunchError::NotTrapped(status));
    }
    match arm_all(process, table) {
        Err(e) => {
            let _ = process.kill();
            Err(LaunchError::Arm(e))
        },
        Ok(()) => Ok(status),
    }
}

/// Whether the entries of `entries` from position `from` on list `addr`.
pub open spec fn listed_from(entries: Seq<Breakpoint>, from: int, addr: usize) -> bool {
    exists|i: int| from <= i < entries.len() && #[trigger] entries[i].address == addr
}

/// Whether every breakpoint of `entries` can be written into `m`: the
/// process rests and the word around each address is mapped.
pub open spec fn armable(m: ProcessModel, entries: Seq<Breakpoint>) -> bool {
    entries.len() == 0 || (m.phase is Stopped && forall|i: int|
        0 <= i < entries.len() ==> m.memory.contains_key(
            word_base((#[trigger] entries[i]).address),
        ))
}

proof fn lemma_arm_from_succeeds(m: ProcessModel, entries: Seq<Breakpoint>, from: int)
    requires
        0 <= from <= entries.len(),
    ensures
        arm_from(m, entries, from).outcome is Ok <==> (from == entries.len() || (m.phase is Stopped
            && forall|i: int|
            from <= i < entries.len() ==> m.memory.contains_key(
                word_base((#[trigger] entries[i]).address),
            ))),
    decreases entries.len() - from,
{
    if from < entries.len() {
        let address = entries[from].address;
        let (patched, displaced) = m.patch_byte(address, TRAP_OPCODE);
        if displaced is Ok {
            let next = armed_entry(entries, from, displaced->Ok_0);
            lemma_arm_from_succeeds(patched, next, from + 1);
            assert(patched.memory.dom() =~= m.memory.dom());
            assert forall|i: int| from + 1 <= i < entries.len() implies next[i].address
                == entries[i].address by {}
            if arm_from(m, entries, from).outcome is Ok {
                assert forall|i: int| from <= i < entries.len() implies m.memory.contains_key(
                    word_base((#[trigger] entries[i]).address),
                ) by {
                    if i > from {
                        assert(patched.memory.contains_key(word_base(next[i].address)));
                    }
                }
            } else if from + 1 < entries.len() && m.phase is Stopped {
                let i = choose|i: int|
                    from + 1 <= i < entries.len() && !patched.memory.contains_key(
                        word_base((#[trigger] next[i]).address),
                    );
                assert(!m.memory.contains_key(word_base(entries[i].address)));
            }
        } else {
            assert(!m.memory.contains_key(word_base(entries[from].address)) || !(m.phase
                is Stopped));
        }
    }
}

proof fn lemma_arm_from_effect(m: ProcessModel, entries: Seq<Breakpoint>, from: int)
    requires
        0 <= from <= entries.len(),
        distinct_addresses(entries),
        arm_from(m, entries, from).outcome is Ok,
    ensures
        ({
            let armed = arm_from(m, entries, from);
            &&& same_addresses(entries, armed.entries)
            &&& forall|i: int| 0 <= i < from ==> #[trigger] armed.entries[i] == entries[i]
            &&& forall|i: int|
                from <= i < entries.len() ==> m.byte(entries[i].address) is Some && (
                #[trigger] armed.entries[i]).slot == Slot::Armed(
                    m.byte(entries[i].address).unwrap(),
                )
            &&& forall|addr: usize|
                #[trigger] armed.process.byte(addr) == if listed_from(entries, from, addr) {
                    Some(TRAP_OPCODE)
                } else {
                    m.byte(addr)
                }
            &&& armed.process == ProcessModel { memory: armed.process.memory, ..m }
        }),
    decreases entries.len() - from,
{
    let armed = arm_from(m, entries, from);
    if from < entries.len() {
        let address = entries[from].address;
        let (patched, displaced) = m.patch_byte(address, TRAP_OPCODE);
        let byte = displaced->Ok_0;
        let next = armed_entry(entries, from, byte);
        assert(same_addresses(entries, next));
        assert(distinct_addresses(next)) by {
            assert forall|i: int, j: int| 0 <= i < j < next.len() implies next[i].address
                != next[j].address by {
                assert(entries[i].address != entries[j].address);
            }
        }
        lemma_arm_from_effect(patched, next, from + 1);
        law_patch_byte(m, address, TRAP_OPCODE, address);
        assert(armed.entries[from] == next[from]);
        assert forall|i: int| from <= i < entries.len() implies m.byte(entries[i].address)
            is Some && (#[trigger] armed.entries[i]).slot == Slot::Armed(
            m.byte(entries[i].address).unwrap(),
        ) by {
            if i > from {
                assert(entries[from].address != entries[i].address);
                assert(next[i].address == entries[i].address);
                law_patch_byte(m, address, TRAP_OPCODE, entries[i].address);
            }
        }
        assert forall|addr: usize|
            #[trigger] armed.process.byte(addr) == if listed_from(entries, from, addr) {
                Some(TRAP_OPCODE)
            } else {
                m.byte(addr)
            } by {
            law_patch_byte(m, address, TRAP_OPCODE, addr);
            if listed_from(next, from + 1, addr) {
                let i = choose|i: int| from + 1 <= i < next.len() && #[trigger] next[i].address == addr;
                assert(entries[i].address == addr);
            } else if addr == address {
                assert(entries[from].address == addr);
            } else if listed_from(entries, from, addr) {
                let i = choose|i: int|
                    from <= i < entries.len() && #[trigger] entries[i].address == addr;
                assert(next[i].address == addr);
            }
        }
        assert(forall|i: int| 0 <= i < from ==> next[i] == entries[i]);
    }
}

/// Arming succeeds exactly when the process rests and the word around
/// every breakpoint address is mapped, or when there is nothing to arm.
pub proof fn law_arming_succeeds(m: ProcessModel, entries: Seq<Breakpoint>)
    ensures
        arm_from(m, entries, 0).outcome is Ok <==> armable(m, entries),
{
    lemma_arm_from_succeeds(m, entries, 0);
}

/// After the breakpoints have been armed, memory shows the trap opcode at
/// every address of the table and is unchanged everywhere else, each entry
/// holds the byte that was at its address before, and nothing but memory
/// has changed in the process.
pub proof fn law_arming_effect(m: ProcessModel, entries: Seq<Breakpoint>, addr: usize)
    requires
        distinct_addresses(entries),
        arm_from(m, entries, 0).outcome is Ok,
    ensures
        ({
            let armed = arm_from(m, entries, 0);
            &&& same_addresses(entries, armed.entries)
            &&& has_address(entries, addr) ==> {
                &&& armed.process.byte(addr) == Some(TRAP_OPCODE)
                &&& m.byte(addr) is Some
                &&& slot_of(armed.entries, addr) == Some(Slot::Armed(m.byte(addr).unwrap()))
            }
            &&& !has_address(entries, addr) ==> {
                &&& armed.process.byte(addr) == m.byte(addr)
                &&& slot_of(armed.entries, addr) is None
            }
            &&& armed.process == ProcessModel { memory: armed.process.memory, ..m }
        }),
{
    let armed = arm_from(m, entries, 0);
    lemma_arm_from_effect(m, entries, 0);
    assert(armed.process.byte(addr) == if listed_from(entries, 0, addr) {
        Some(TRAP_OPCODE)
    } else {
        m.byte(addr)
    });
    assert(distinct_addresses(armed.entries)) by {
        assert forall|i: int, j: int| 0 <= i < j < armed.entries.len() implies armed.entries[i].address
            != armed.entries[j].address by {
            assert(entries[i].address != entries[j].address);
        }
    }
    lemma_slot_of(armed.entries, addr);
    if has_address(entries, addr) {
        let i = choose|i: int| 0 <= i < entries.len() && #[trigger] entries[i].address == addr;
        assert(listed_from(entries, 0, addr));
        assert(armed.entries[i].address == addr);
        assert(armed.entries[i].slot == Slot::Armed(m.byte(addr).unwrap()));
    } else {
        if has_address(armed.entries, addr) {
            let i = choose|i: int|
                0 <= i < armed.entries.len() && #[trigger] armed.entries[i].address == addr;
            assert(entries[i].address == addr);
        }
        if listed_from(entries, 0, addr) {
            let i = choose|i: int| 0 <= i < entries.len() && #[trigger] entries[i].address == addr;
            assert(has_address(entries, addr));
        }
    }
}

/// The order in which breakpoints were recorded does not matter to
/// arming: two tables that list the same addresses are armed under the same
/// conditions, and then leave the same bytes in memory and the same
/// displaced byte recorded for every address.
pub proof fn law_arming_ignores_order(
    m: ProcessModel,
    first: Seq<Breakpoint>,
    second: Seq<Breakpoint>,
    addr: usize,
)
    requires
        distinct_addresses(first),
        distinct_addresses(second),
        address_set(first) == address_set(second),
    ensures
        arm_from(m, first, 0).outcome is Ok <==> arm_from(m, second, 0).outcome is Ok,
        arm_from(m, first, 0).outcome is Ok ==> {
            &&& arm_from(m, first, 0).process.byte(addr) == arm_from(m, second, 0).process.byte(addr)
            &&& slot_of(arm_from(m, first, 0).entries, addr) == slot_of(
                arm_from(m, second, 0).entries,
                addr,
            )
            &&& address_set(arm_from(m, first, 0).entries) == address_set(first)
        },
{
    law_arming_succeeds(m, first);
    law_arming_succeeds(m, second);
    assert forall|a: usize| has_address(first, a) <==> has_address(second, a) by {
        assert(address_set(first).contains(a) == has_address(first, a));
        assert(address_set(second).contains(a) == has_address(second, a));
    }
    if armable(m, first) {
        assert(armable(m, second)) by {
            assert forall|i: int| 0 <= i < second.len() implies m.memory.contains_key(
                word_base((#[trigger] second[i]).address),
            ) by {
                assert(has_address(second, second[i].address));
                let k = choose|k: int|
                    0 <= k < first.len() && #[trigger] first[k].address == second[i].address;
            }
            if second.len() > 0 {
                assert(has_address(second, second[0].address));
                assert(first.len() > 0);
            }
        }
    }
    if armable(m, second) {
        assert(armable(m, first)) by {
            assert forall|i: int| 0 <= i < first.len() implies m.memory.contains_key(
                word_base((#[trigger] first[i]).address),
            ) by {
                assert(has_address(first, first[i].address));
                let k = choose|k: int|
                    0 <= k < second.len() && #[trigger] second[k].address == first[i].address;
            }
            if first.len() > 0 {
                assert(has_address(first, first[0].address));
                assert(second.len() > 0);
            }
        }
    }
    if arm_from(m, first, 0).outcome is Ok {
        law_arming_effect(m, first, addr);
        law_arming_effect(m, second, addr);
        let armed = arm_from(m, first, 0).entries;
        assert(address_set(armed) =~= address_set(first)) by {
            assert forall|a: usize| has_address(armed, a) <==> has_address(first, a) by {
                if has_address(armed, a) {
                    let i = choose|i: int| 0 <= i < armed.len() && #[trigger] armed[i].address == a;
                    assert(first[i].address == a);
                }
                if has_address(first, a) {
                    let i = choose|i: int| 0 <= i < first.len() && #[trigger] first[i].address == a;
                    assert(armed[i].address == a);
                }
            }
        }
    }
}

/// Stepping over a breakpoint while the process lives on. A process rests
/// one trap length past a breakpoint at `addr` whose trap displaced
/// `original`, and its single step ends in a stop, on whatever signal. Then
/// waking it runs the displaced instruction exactly once, alone and with
/// its own first byte in place, and lets the process run on with the trap
/// written again: memory ends as it began, and the outcome is the state
/// change after that of the step.
pub proof fn law_step_over_rearms(
    m: ProcessModel,
    entries: Seq<Breakpoint>,
    addr: usize,
    original: u8,
)
    requires
        m.phase is Stopped,
        m.pc == addr + TRAP_LENGTH,
        slot_of(entries, addr) == Some(Slot::Armed(original)),
        m.byte(addr) == Some(TRAP_OPCODE),
        m.script.len() >= 2,
        m.script[0] is Stopped,
    ensures
        ({
            let (woken, status) = wake_up_model(m, entries);
            let step = Resumption { singlestep: true, pc: addr, opcode: Some(original) };
            let stop = m.script[0]->Stopped_1;
            let run = Resumption { singlestep: false, pc: stop, opcode: m.byte(stop) };
            &&& status == Ok::<Status, ControlError>(m.script[1])
            &&& woken.memory == m.memory
            &&& woken.script == m.script.skip(2)
            &&& woken.resumptions == m.resumptions.push(step).push(run)
        }),
{
    let (restored, displaced) = m.patch_byte(addr, original);
    law_patch_byte(m, addr, original, addr);
    crate::process::law_patch_round_trip(m, addr, original);
    let (rewound, moved) = restored.set_program_counter(addr);
    let (stepped, status) = resume_and_wait(rewound, true);
    let (rearmed, trap) = stepped.patch_byte(addr, TRAP_OPCODE);
    assert(stepped.memory == restored.memory);
    assert(rearmed.memory == m.memory);
    assert(rearmed.script =~= m.script.skip(1));
    let (woken, last) = resume_and_wait(rearmed, false);
    assert(woken.script =~= m.script.skip(2));
    assert(rearmed.script[0] == m.script[1]);
}

/// A process that lives after it was woken has its breakpoints in place.
/// A process rests with the trap opcode in memory at the armed breakpoint
/// that it has just trapped on, if there is one. Then, whenever waking it
/// reports a stop, memory is as it was before: the trap is at that address
/// again, and the next pass through it stops again.
pub proof fn law_live_process_keeps_breakpoint(m: ProcessModel, entries: Seq<Breakpoint>)
    requires
        m.phase is Stopped,
        trapped_breakpoint(entries, m.pc) matches Some((addr, _)) ==> m.byte(addr) == Some(
            TRAP_OPCODE,
        ),
    ensures
        wake_up_model(m, entries).1 matches Ok(Status::Stopped(_, _)) ==> wake_up_model(
            m,
            entries,
        ).0.memory == m.memory,
{
    if let Some((addr, original)) = trapped_breakpoint(entries, m.pc) {
        let (restored, displaced) = m.patch_byte(addr, original);
        law_patch_byte(m, addr, original, addr);
        crate::process::law_patch_round_trip(m, addr, original);
        let (rewound, moved) = restored.set_program_counter(addr);
        let (stepped, status) = resume_and_wait(rewound, true);
        if status is Ok && status->Ok_0 is Stopped {
            let (rearmed, trap) = stepped.patch_byte(addr, TRAP_OPCODE);
            assert(stepped.memory == restored.memory);
            assert(rearmed.memory == m.memory);
        }
    }
}

/// Stepping over a breakpoint when the step ends the process. A process
/// rests one trap length past a breakpoint at `addr` whose trap displaced
/// `original`, and its single step ends in an exit or a termination. Then
/// waking it runs the displaced instruction exactly once and reports that
/// end at once: the process is not resumed again.
pub proof fn law_step_over_ends(m: ProcessModel, entries: Seq<Breakpoint>, addr: usize, original: u8)
    requires
        m.phase is Stopped,
        m.pc == addr + TRAP_LENGTH,
        slot_of(entries, addr) == Some(Slot::Armed(original)),
        m.byte(addr) is Some,
        m.script.len() >= 1,
        !(m.script[0] is Stopped),
    ensures
        ({
            let (woken, status) = wake_up_model(m, entries);
            let step = Resumption { singlestep: true, pc: addr, opcode: Some(original) };
            &&& status == Ok::<Status, ControlError>(m.script[0])
            &&& woken.phase is Gone
            &&& woken.script == m.script.skip(1)
            &&& woken.resumptions == m.resumptions.push(step)
        }),
{
    let (restored, displaced) = m.patch_byte(addr, original);
    law_patch_byte(m, addr, original, addr);
}

/// Waking a process that rests anywhere but just behind an armed
/// breakpoint resumes it once, freely, and reports its next state change.
pub proof fn law_wake_up_elsewhere(m: ProcessModel, entries: Seq<Breakpoint>)
    requires
        m.phase is Stopped,
        trapped_breakpoint(entries, m.pc) is None,
    ensures
        wake_up_model(m, entries) == resume_and_wait(m, false),
{
}

/// A process is resumed only while it rests, and is waited for after every
/// resumption before anything else is asked of it. So a process that was
/// woken at rest is at rest again, at the reported program counter, when a
/// stop is reported, and is gone when an exit or a termination is reported.
pub proof fn law_wake_up_settles(m: ProcessModel, entries: Seq<Breakpoint>)
    requires
        m.phase is Stopped,
    ensures
        ({
            let (woken, status) = wake_up_model(m, entries);
            match status {
                Ok(Status::Stopped(_, pc)) => woken.phase is Stopped && woken.pc == pc,
                Ok(_) => woken.phase is Gone,
                Err(_) => true,
            }
        }),
{
}

/// A process that has been launched rests with every breakpoint armed,
/// and a process that has failed to launch is gone.
pub proof fn law_launch_settles(m: ProcessModel, entries: Seq<Breakpoint>)
    ensures
        ({
            let launched = launch_model(m, entries);
            match launched.outcome {
                Ok(status) => {
                    &&& status.is_trap()
                    &&& launched.process.phase is Stopped
                    &&& launched.process.pc == status->Stopped_1
                    &&& all_armed(launched.entries)
                    &&& same_addresses(entries, launched.entries)
                },
                Err(_) => launched.process.phase is Gone,
            }
        }),
{
    let (waited, first) = m.wait();
    if first is Ok && first->Ok_0.is_trap() {
        lemma_arm_from_shape(waited, entries, 0);
    }
}

proof fn lemma_arm_from_shape(m: ProcessModel, entries: Seq<Breakpoint>, from: int)
    requires
        0 <= from <= entries.len(),
    ensures
        ({
            let armed = arm_from(m, entries, from);
            &&& same_addresses(entries, armed.entries)
            &&& armed.process == ProcessModel { memory: armed.process.memory, ..m }
            &&& forall|i: int| 0 <= i < from ==> #[trigger] armed.entries[i] == entries[i]
            &&& armed.outcome is Ok ==> forall|i: int|
                from <= i < entries.len() ==> (#[trigger] armed.entries[i]).slot is Armed
        }),
    decreases entries.len() - from,
{
    if from < entries.len() {
        let (patched, displaced) = m.patch_byte(entries[from].address, TRAP_OPCODE);
        if displaced is Ok {
            let next = armed_entry(entries, from, displaced->Ok_0);
            lemma_arm_from_shape(patched, next, from + 1);
            let armed = arm_from(m, entries, from);
            assert(armed == arm_from(patched, next, from + 1));
            assert(armed.entries[from] == next[from]);
            assert forall|i: int| 0 <= i < from implies #[trigger] armed.entries[i] == entries[i] by {
                assert(next[i] == entries[i]);
            }
            assert(same_addresses(entries, armed.entries)) by {
                assert forall|i: int| 0 <= i < entries.len() implies (#[trigger] entries[i]).address
                    == armed.entries[i].address by {
                    assert(next[i].address == entries[i].address);
                }
            }
            if armed.outcome is Ok {
                assert forall|i: int| from <= i < entries.len() implies (
                #[trigger] armed.entries[i]).slot is Armed by {
                    if i == from {
                        assert(next[from].slot is Armed);
                    }
                }
            }
        }
    }
}

} // verus!
