//! Walking the call stack of a stopped process along its frame pointers.
//!
//! Each stack frame begins with the saved base pointer of its caller, and
//! the return address into the caller lies one word above it. What a frame
//! leads to is decided by its base pointer alone, so a chain that comes to
//! a base pointer for the second time runs in a circle. The walk remembers
//! the base pointers it has read from and stops there; it ends on every
//! chain, and fails on none that leads to the entry function.

use crate::process::{ProcessController, ProcessModel};
use crate::status::{ControlError, Operation};
use crate::symbols::{SourceLine, SymbolTable, Symbols};
use crate::word::WORD_BYTES;
use std::collections::HashSet;
use vstd::prelude::*;
use vstd::set_lib::FiniteFull;

verus! {

broadcast use vstd::std_specs::hash::group_hash_axioms;

/// One frame of a call stack: the function that is executing and the
/// source line it has reached.
#[derive(Clone, Debug, PartialEq, Eq)]
pub struct StackFrame {
    pub function: String,
    pub line: SourceLine,
}

/// Why a backtrace failed.
#[derive(Clone, Copy, Debug, PartialEq, Eq, Structural)]
pub enum BacktraceError {
    /// A register or a word of the stack could not be read.
    Control(ControlError),
    /// The symbol information does not cover this program counter.
    Unresolved(usize),
    /// The frame at this base pointer leads nowhere: the chain has come to
    /// it before and runs in a circle, or it lies at the very top of
    /// memory, or it holds what is no address.
    BrokenChain(usize),
}

/// The frame that symbol information gives for a program counter.
pub open spec fn frame_at(symbols: Symbols, pc: usize) -> Option<StackFrame> {
    match (symbols.resolve_function(pc), symbols.resolve_line(pc)) {
        (Some(function), Some(line)) => Some(StackFrame { function, line }),
        _ => None,
    }
}

/// The program counter and base pointer of the caller of the frame at
/// `bp`, from the return address and the saved base pointer found in that
/// frame. The chain is broken unless both are addresses.
pub open spec fn caller_of(bp: usize, return_address: u64, saved_bp: u64) -> Result<
    (usize, usize),
    BacktraceError,
> {
    if return_address <= usize::MAX && saved_bp <= usize::MAX {
        Ok((return_address as usize, saved_bp as usize))
    } else {
        Err(BacktraceError::BrokenChain(bp))
    }
}

/// The caller of the frame at `bp`, read from the memory of `m`.
pub open spec fn caller_in(m: ProcessModel, bp: usize) -> Result<(usize, usize), BacktraceError> {
    if bp > usize::MAX - WORD_BYTES {
        Err(BacktraceError::BrokenChain(bp))
    } else {
        match m.read_word((bp + WORD_BYTES) as usize) {
            Err(e) => Err(BacktraceError::Control(e)),
            Ok(return_address) => match m.read_word(bp) {
                Err(e) => Err(BacktraceError::Control(e)),
                Ok(saved_bp) => caller_of(bp, return_address, saved_bp),
            },
        }
    }
}

/// Reading from a base pointer for the first time leaves fewer to read
/// from.
pub proof fn lemma_fewer_unseen(seen: Set<usize>, bp: usize)
    requires
        !seen.contains(bp),
    ensures
        Set::<usize>::full().difference(seen.insert(bp)).len() < Set::<usize>::full().difference(
            seen,
        ).len(),
{
    usize::full_properties();
    Set::<usize>::full().lemma_set_insert_diff_decreases(seen, bp);
}

/// `frames` in front of the frames of `rest`, or the failure of `rest`.
pub open spec fn after(frames: Seq<StackFrame>, rest: Result<Seq<StackFrame>, BacktraceError>) -> Result<
    Seq<StackFrame>,
    BacktraceError,
> {
    match rest {
        Ok(outer) => Ok(frames + outer),
        Err(e) => Err(e),
    }
}

/// The number of base pointers that the walk has not read from yet.
pub open spec fn unseen(seen: Set<usize>) -> nat {
    Set::<usize>::full().difference(seen).len()
}

/// The frames from the one at (`pc`, `bp`) outwards, ending with the frame
/// of the entry function, where the frames at the base pointers `seen` have
/// been read before.
pub open spec fn walk(
    m: ProcessModel,
    symbols: Symbols,
    pc: usize,
    bp: usize,
    seen: Set<usize>,
) -> Result<Seq<StackFrame>, BacktraceError>
    decreases unseen(seen),
{
    match frame_at(symbols, pc) {
        None => Err(BacktraceError::Unresolved(pc)),
        Some(frame) => if symbols.is_entry(frame.function@) {
            Ok(seq![frame])
        } else if seen.contains(bp) {
            Err(BacktraceError::BrokenChain(bp))
        } else {
            match caller_in(m, bp) {
                Err(e) => Err(e),
                Ok((return_address, saved_bp)) => {
                    proof {
                        lemma_fewer_unseen(seen, bp);
                    }
                    after(seq![frame], walk(m, symbols, return_address, saved_bp, seen.insert(bp)))
                },
            }
        },
    }
}

/// The call stack of a process at rest.
pub open spec fn backtrace_model(m: ProcessModel, symbols: Symbols) -> Result<
    Seq<StackFrame>,
    BacktraceError,
> {
    match m.program_counter() {
        Err(e) => Err(BacktraceError::Control(e)),
        Ok(pc) => match m.base_pointer() {
            Err(e) => Err(BacktraceError::Control(e)),
            Ok(bp) => walk(m, symbols, pc, bp, Set::empty()),
        },
    }
}

/// Whether each frame of `frames` is what the symbols give for some
/// program counter.
pub open spec fn resolved(frames: Seq<StackFrame>, symbols: Symbols) -> bool {
    forall|i: int|
        0 <= i < frames.len() ==> exists|pc: usize|
            frame_at(symbols, pc) == Some(#[trigger] frames[i])
}

/// Whether `frames` is a call stack that ends with the entry function and
/// holds it nowhere else.
pub open spec fn ends_at_entry(frames: Seq<StackFrame>, symbols: Symbols) -> bool {
    &&& frames.len() > 0
    &&& symbols.is_entry(frames.last().function@)
    &&& forall|i: int| 0 <= i < frames.len() - 1 ==> !symbols.is_entry((#[trigger] frames[i]).function@)
}

/// Resolves the frame that is executing at `pc`.
pub fn resolve_frame(symbols: &SymbolTable, pc: usize) -> (frame: Option<StackFrame>)
    ensures
        frame == frame_at(symbols@, pc),
{
    let function = match symbols.resolve_function(pc) {
        None => {
            return None;
        },
        Some(function) => function,
    };
    match symbols.resolve_line(pc) {
        None => None,
        Some(line) => Some(StackFrame { function, line }),
    }
}

/// Turns the two words read from the frame at `bp` into the program
/// counter and base pointer of its caller.
pub fn caller_frame(bp: usize, return_address: u64, saved_bp: u64) -> (caller: Result<
    (usize, usize),
    BacktraceError,
>)
    ensures
        caller == caller_of(bp, return_address, saved_bp),
{
    if return_address <= usize::MAX as u64 && saved_bp <= usize::MAX as u64 {
        Ok((return_address as usize, saved_bp as usize))
    } else {
        Err(BacktraceError::BrokenChain(bp))
    }
}

/// Reads the frame at `bp` and finds its caller. It fails where reading
/// one of the two words of the frame is refused, and where the frame lies
/// at the very top of memory or holds what is no address.
pub fn read_caller<P: ProcessController>(process: &P, bp: usize) -> (caller: Result<
    (usize, usize),
    BacktraceError,
>)
    ensures
        match caller {
            Ok(_) => true,
            Err(BacktraceError::Control(e)) => e.refuses(Operation::ReadMemory),
            Err(BacktraceError::BrokenChain(at)) => at == bp,
            Err(BacktraceError::Unresolved(_)) => false,
        },
        process.model() matches Some(m) ==> caller == caller_in(m, bp),
{
    if bp > usize::MAX - WORD_BYTES {
        return Err(BacktraceError::BrokenChain(bp));
    }
    let return_address = match process.read_word(bp + WORD_BYTES) {
        Err(e) => {
            return Err(BacktraceError::Control(e));
        },
        Ok(word) => word,
    };
    let saved_bp = match process.read_word(bp) {
        Err(e) => {
            return Err(BacktraceError::Control(e));
        },
        Ok(word) => word,
    };
    caller_frame(bp, return_address, saved_bp)
}

/// Produces the call stack of a stopped process, innermost frame first.
///
/// The walk starts at the program counter, resolves each frame through the
/// symbol table and follows the frame pointers outwards. It ends with the
/// frame of the entry function. It fails where a register or a word of the
/// stack cannot be read, where the symbols do not cover a program counter,
/// and where the chain comes to a frame for the second time, since from
/// there it runs in a circle; so it ends on every chain, and fails on none
/// that leads to the entry function.
pub fn backtrace<P: ProcessController>(process: &P, symbols: &SymbolTable) -> (stack: Result<
    Vec<StackFrame>,
    BacktraceError,
>)
    ensures
        stack matches Ok(frames) ==> ends_at_entry(frames@, symbols@) && resolved(
            frames@,
            symbols@,
        ),
        match stack {
            Ok(_) => true,
            Err(BacktraceError::Control(e)) => e.refuses(Operation::ReadRegisters) || e.refuses(
                Operation::ReadMemory,
            ),
            Err(BacktraceError::Unresolved(pc)) => frame_at(symbols@, pc) is None,
            Err(BacktraceError::BrokenChain(_)) => true,
        },
        process.model() matches Some(m) ==> match backtrace_model(m, symbols@) {
            Ok(frames) => stack matches Ok(found) && found@ == frames,
            Err(e) => stack == Err::<Vec<StackFrame>, BacktraceError>(e),
        },
{
    let mut pc = match process.program_counter() {
        Err(e) => {
            return Err(BacktraceError::Control(e));
        },
        Ok(pc) => pc,
    };
    let mut bp = match process.base_pointer() {
        Err(e) => {
            return Err(BacktraceError::Control(e));
        },
        Ok(bp) => bp,
    };
    let mut frames: Vec<StackFrame> = Vec::new();
    let mut visited: HashSet<usize> = HashSet::new();
    let ghost start_pc = pc;
    let ghost start_bp = bp;
    assert(Seq::<StackFrame>::empty() + seq![] =~= seq![]);
    loop
        invariant
            resolved(frames@, symbols@),
            process.model() matches Some(m) ==> m.program_counter() == Ok::<usize, ControlError>(
                start_pc,
            ) && m.base_pointer() == Ok::<usize, ControlError>(start_bp),
            forall|i: int| 0 <= i < frames@.len() ==> !symbols@.is_entry((#[trigger] frames@[i]).function@),
            process.model() matches Some(m) ==> walk(
                m,
                symbols@,
                start_pc,
                start_bp,
                Set::empty(),
            ) == after(frames@, walk(m, symbols@, pc, bp, visited@)),
        decreases unseen(visited@),
    {
        let frame = match resolve_frame(symbols, pc) {
            None => {
                return Err(BacktraceError::Unresolved(pc));
            },
            Some(frame) => frame,
        };
        let at_entry = symbols.is_entry(frame.function.as_str());
        let ghost before = frames@;
        let ghost current = frame;
        frames.push(frame);
        proof {
            assert forall|i: int| 0 <= i < frames@.len() implies exists|at: usize|
                frame_at(symbols@, at) == Some(#[trigger] frames@[i]) by {
                if i < before.len() {
                    assert(frames@[i] == before[i]);
                } else {
                    assert(frame_at(symbols@, pc) == Some(frames@[i]));
                }
            }
        }
        if at_entry {
            proof {
                assert(frames@ =~= before + seq![current]);
            }
            return Ok(frames);
        }
        if visited.contains(&bp) {
            return Err(BacktraceError::BrokenChain(bp));
        }
        let ghost seen = visited@;
        match read_caller(process, bp) {
            Err(e) => {
                return Err(e);
            },
            Ok((return_address, saved_bp)) => {
                visited.insert(bp);
                proof {
                    lemma_fewer_unseen(seen, bp);
                    if let Some(m) = process.model() {
                        let outer = walk(m, symbols@, return_address, saved_bp, seen.insert(bp));
                        if let Ok(rest) = outer {
                            assert(before + (seq![current] + rest) =~= frames@ + rest);
                        }
                    }
                }
                pc = return_address;
                bp = saved_bp;
            },
        }
    }
}

/// A call stack found by the walk ends with the frame of the entry
/// function and shows that function in no other frame.
pub proof fn law_walk_ends_at_entry(
    m: ProcessModel,
    symbols: Symbols,
    pc: usize,
    bp: usize,
    seen: Set<usize>,
)
    requires
        walk(m, symbols, pc, bp, seen) is Ok,
    ensures
        ends_at_entry(walk(m, symbols, pc, bp, seen)->Ok_0, symbols),
    decreases unseen(seen),
{
    let frame = frame_at(symbols, pc)->Some_0;
    if !symbols.is_entry(frame.function@) {
        let (return_address, saved_bp) = caller_in(m, bp)->Ok_0;
        lemma_fewer_unseen(seen, bp);
        law_walk_ends_at_entry(m, symbols, return_address, saved_bp, seen.insert(bp));
        let rest = walk(m, symbols, return_address, saved_bp, seen.insert(bp))->Ok_0;
        let all = seq![frame] + rest;
        assert(all.last() == rest.last());
        assert forall|i: int| 0 <= i < all.len() - 1 implies !symbols.is_entry(
            (#[trigger] all[i]).function@,
        ) by {
            if i > 0 {
                assert(all[i] == rest[i - 1]);
            }
        }
    }
}

/// The first frame of a call stack found by the walk is the one that the
/// symbols give at the program counter where the walk began: the function
/// and the source line of the stop.
pub proof fn law_walk_starts_at_stop(
    m: ProcessModel,
    symbols: Symbols,
    pc: usize,
    bp: usize,
    seen: Set<usize>,
)
    requires
        walk(m, symbols, pc, bp, seen) is Ok,
    ensures
        walk(m, symbols, pc, bp, seen)->Ok_0.len() >= 1,
        frame_at(symbols, pc) == Some(walk(m, symbols, pc, bp, seen)->Ok_0[0]),
{
}

/// Whether memory holds a chain of frames with the program counters `pcs`
/// and the base pointers `bps`, innermost first: each program counter is
/// covered by the symbols, only the last lies in the entry function, and
/// each frame but the last leads to the next.
pub open spec fn chain_of_frames(
    m: ProcessModel,
    symbols: Symbols,
    pcs: Seq<usize>,
    bps: Seq<usize>,
) -> bool {
    &&& pcs.len() == bps.len()
    &&& pcs.len() >= 1
    &&& forall|i: int| 0 <= i < pcs.len() ==> frame_at(symbols, #[trigger] pcs[i]) is Some
    &&& forall|i: int|
        0 <= i < pcs.len() ==> (symbols.is_entry(frame_at(symbols, #[trigger] pcs[i])->0.function@)
            <==> i == pcs.len() - 1)
    &&& forall|i: int|
        0 <= i < pcs.len() - 1 ==> caller_in(m, #[trigger] bps[i]) == Ok::<
            (usize, usize),
            BacktraceError,
        >((pcs[i + 1], bps[i + 1]))
}

/// The frames that the symbols give for the program counters `pcs` from
/// position `from` on.
pub open spec fn frames_of(symbols: Symbols, pcs: Seq<usize>, from: int) -> Seq<StackFrame> {
    Seq::new((pcs.len() - from) as nat, |i: int| frame_at(symbols, pcs[from + i])->0)
}

/// A chain that leads to the entry function comes to no base pointer
/// twice before it gets there: what follows a frame is decided by its base
/// pointer, so a second visit would lead to the entry function as early as
/// the first did.
proof fn lemma_chain_never_returns(
    m: ProcessModel,
    symbols: Symbols,
    pcs: Seq<usize>,
    bps: Seq<usize>,
    i: int,
    j: int,
)
    requires
        chain_of_frames(m, symbols, pcs, bps),
        0 <= i < j < pcs.len() - 1,
    ensures
        bps[i] != bps[j],
    decreases pcs.len() - j,
{
    if bps[i] == bps[j] {
        assert(caller_in(m, bps[i]) == Ok::<(usize, usize), BacktraceError>(
            (pcs[i + 1], bps[i + 1]),
        ));
        assert(caller_in(m, bps[j]) == Ok::<(usize, usize), BacktraceError>(
            (pcs[j + 1], bps[j + 1]),
        ));
        assert(pcs[i + 1] == pcs[j + 1]);
        assert(bps[i + 1] == bps[j + 1]);
        if j + 1 == pcs.len() - 1 {
            assert(symbols.is_entry(frame_at(symbols, pcs[j + 1])->0.function@));
            assert(!symbols.is_entry(frame_at(symbols, pcs[i + 1])->0.function@));
        } else {
            lemma_chain_never_returns(m, symbols, pcs, bps, i + 1, j + 1);
        }
    }
}

proof fn lemma_walk_of_chain(
    m: ProcessModel,
    symbols: Symbols,
    pcs: Seq<usize>,
    bps: Seq<usize>,
    from: int,
    seen: Set<usize>,
)
    requires
        chain_of_frames(m, symbols, pcs, bps),
        0 <= from < pcs.len(),
        forall|k: int| from <= k < pcs.len() - 1 ==> !seen.contains(#[trigger] bps[k]),
    ensures
        walk(m, symbols, pcs[from], bps[from], seen) == Ok::<Seq<StackFrame>, BacktraceError>(
            frames_of(symbols, pcs, from),
        ),
    decreases pcs.len() - from,
{
    let frame = frame_at(symbols, pcs[from])->0;
    assert(frame_at(symbols, pcs[from]) is Some);
    if from == pcs.len() - 1 {
        assert(symbols.is_entry(frame.function@));
        assert(frames_of(symbols, pcs, from) =~= seq![frame]);
    } else {
        assert(!symbols.is_entry(frame.function@));
        assert(!seen.contains(bps[from]));
        assert(caller_in(m, bps[from]) == Ok::<(usize, usize), BacktraceError>(
            (pcs[from + 1], bps[from + 1]),
        ));
        let next = seen.insert(bps[from]);
        assert forall|k: int| from + 1 <= k < pcs.len() - 1 implies !next.contains(
            #[trigger] bps[k],
        ) by {
            lemma_chain_never_returns(m, symbols, pcs, bps, from, k);
        }
        lemma_walk_of_chain(m, symbols, pcs, bps, from + 1, next);
        assert(frames_of(symbols, pcs, from) =~= seq![frame] + frames_of(symbols, pcs, from + 1));
    }
}

/// On a chain of n frames whose last is that of the entry function, the
/// walk gives exactly those n frames, innermost first and the entry
/// function last, whatever memory holds above the frame of the entry
/// function and wherever in memory the frames lie.
pub proof fn law_walk_of_chain(m: ProcessModel, symbols: Symbols, pcs: Seq<usize>, bps: Seq<usize>)
    requires
        m.phase is Stopped,
        chain_of_frames(m, symbols, pcs, bps),
        m.pc == pcs[0],
        m.bp == bps[0],
    ensures
        backtrace_model(m, symbols) == Ok::<Seq<StackFrame>, BacktraceError>(
            frames_of(symbols, pcs, 0),
        ),
        frames_of(symbols, pcs, 0).len() == pcs.len(),
        frame_at(symbols, m.pc) == Some(frames_of(symbols, pcs, 0)[0]),
{
    lemma_walk_of_chain(m, symbols, pcs, bps, 0, Set::empty());
}

/// The walk ends on every chain: what it gives is a call stack that ends
/// with the entry function and begins with the frame of the stop, or one
/// of its three failures.
pub proof fn law_walk_ends(m: ProcessModel, symbols: Symbols, pc: usize, bp: usize, seen: Set<usize>)
    ensures
        match walk(m, symbols, pc, bp, seen) {
            Ok(frames) => ends_at_entry(frames, symbols) && frame_at(symbols, pc) == Some(
                frames[0],
            ),
            Err(BacktraceError::Control(e)) => e.refuses(Operation::ReadMemory),
            Err(BacktraceError::Unresolved(at)) => frame_at(symbols, at) is None,
            Err(BacktraceError::BrokenChain(_)) => true,
        },
    decreases unseen(seen),
{
    if walk(m, symbols, pc, bp, seen) is Ok {
        law_walk_ends_at_entry(m, symbols, pc, bp, seen);
    } else if let Some(frame) = frame_at(symbols, pc) {
        if !symbols.is_entry(frame.function@) && !seen.contains(bp) {
            if let Ok((return_address, saved_bp)) = caller_in(m, bp) {
                lemma_fewer_unseen(seen, bp);
                law_walk_ends(m, symbols, return_address, saved_bp, seen.insert(bp));
            }
        }
    }
}

} // verus!
