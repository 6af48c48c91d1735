//! The table of breakpoints of a debugging session.
//!
//! A breakpoint is an address of the target together with the instruction
//! byte that the trap opcode has displaced there. The table outlives any
//! single run of the target: an address recorded while no process lives is
//! pending until the next launch arms it.
//!
//! The table is a hash map from address to slot, with the addresses listed
//! beside it in the order of recording. A launch arms the breakpoints in
//! that order, so it makes the same writes in the same order in every run,
//! where the order in which a hash map is walked differs from one process
//! to the next; and the position of a breakpoint is the number under which
//! it was announced. That the outcome does not depend on the order is
//! proved, not assumed.

use std::collections::HashMap;
use vstd::prelude::*;

verus! {

broadcast use vstd::std_specs::hash::group_hash_axioms;

/// Whether the trap opcode of a breakpoint is in place.
#[derive(Clone, Copy, Debug, PartialEq, Eq, Structural)]
pub enum Slot {
    /// Recorded, but not yet written into any process.
    Pending,
    /// Written into the process; holds the byte that the trap displaced.
    Armed(u8),
}

/// One entry of the table.
#[derive(Clone, Copy, Debug, PartialEq, Eq, Structural)]
pub struct Breakpoint {
    pub address: usize,
    pub slot: Slot,
}

/// The breakpoints of a session, in the order in which they were added.
/// No address occurs twice.
pub struct BreakpointTable {
    order: Vec<usize>,
    slots: HashMap<usize, Slot>,
}

/// Whether no two entries of `s` share an address.
pub open spec fn distinct_addresses(s: Seq<Breakpoint>) -> bool {
    forall|i: int, j: int| 0 <= i < j < s.len() ==> s[i].address != s[j].address
}

/// Whether some entry of `s` has the address `addr`.
pub open spec fn has_address(s: Seq<Breakpoint>, addr: usize) -> bool {
    exists|i: int| 0 <= i < s.len() && #[trigger] s[i].address == addr
}

/// The slot of the first entry of `s` with the address `addr`.
pub open spec fn slot_of(s: Seq<Breakpoint>, addr: usize) -> Option<Slot>
    decreases s.len(),
{
    if s.len() == 0 {
        None
    } else if s[0].address == addr {
        Some(s[0].slot)
    } else {
        slot_of(s.skip(1), addr)
    }
}

/// Whether `a` and `b` list the same addresses in the same order.
pub open spec fn same_addresses(a: Seq<Breakpoint>, b: Seq<Breakpoint>) -> bool {
    &&& a.len() == b.len()
    &&& forall|i: int| 0 <= i < a.len() ==> (#[trigger] a[i]).address == b[i].address
}

/// The set of addresses in `s`.
pub open spec fn address_set(s: Seq<Breakpoint>) -> Set<usize> {
    Set::new(|addr: usize| has_address(s, addr))
}

/// `slot_of` finds the entry with a given address, wherever it stands, when
/// addresses are distinct; and finds nothing exactly when there is none.
pub proof fn lemma_slot_of(s: Seq<Breakpoint>, addr: usize)
    ensures
        slot_of(s, addr) is Some <==> has_address(s, addr),
        distinct_addresses(s) ==> forall|i: int|
            0 <= i < s.len() && (#[trigger] s[i]).address == addr ==> slot_of(s, addr) == Some(
                s[i].slot,
            ),
    decreases s.len(),
{
    if s.len() > 0 {
        let rest = s.skip(1);
        lemma_slot_of(rest, addr);
        if s[0].address == addr {
            assert(has_address(s, addr));
        } else {
            if has_address(rest, addr) {
                let i = choose|i: int| 0 <= i < rest.len() && #[trigger] rest[i].address == addr;
                assert(s[i + 1].address == addr);
            }
            if has_address(s, addr) {
                let i = choose|i: int| 0 <= i < s.len() && #[trigger] s[i].address == addr;
                assert(rest[i - 1].address == addr);
            }
        }
        if distinct_addresses(s) {
            assert(distinct_addresses(rest)) by {
                assert forall|i: int, j: int| 0 <= i < j < rest.len() implies rest[i].address
                    != rest[j].address by {
                    assert(s[i + 1].address != s[j + 1].address);
                }
            }
            assert forall|i: int| 0 <= i < s.len() && (#[trigger] s[i]).address == addr implies slot_of(
                s,
                addr,
            ) == Some(s[i].slot) by {
                if i > 0 {
                    assert(s[0].address != s[i].address);
                    assert(rest[i - 1].address == addr);
                }
            }
        }
    }
}

impl View for BreakpointTable {
    type V = Seq<Breakpoint>;

    closed spec fn view(&self) -> Seq<Breakpoint> {
        Seq::new(
            self.order@.len(),
            |i: int| Breakpoint { address: self.order@[i], slot: self.slots@[self.order@[i]] },
        )
    }
}

impl BreakpointTable {
    #[verifier::type_invariant]
    spec fn unique(self) -> bool {
        &&& forall|i: int, j: int| 0 <= i < j < self.order@.len() ==> self.order@[i] != self.order@[j]
        &&& forall|addr: usize| #[trigger]
            self.slots@.contains_key(addr) <==> self.order@.contains(addr)
    }

    /// The slot recorded for `addr`, if `addr` is in the table.
    pub open spec fn slot(&self, addr: usize) -> Option<Slot> {
        slot_of(self@, addr)
    }

    /// The empty table.
    pub fn new() -> (table: BreakpointTable)
        ensures
            table@ == Seq::<Breakpoint>::empty(),
    {
        let table = BreakpointTable { order: Vec::new(), slots: HashMap::new() };
        assert(table@ =~= Seq::<Breakpoint>::empty());
        table
    }

    /// The number of breakpoints. No address occurs twice among them.
    pub fn len(&self) -> (n: usize)
        ensures
            n == self@.len(),
            distinct_addresses(self@),
    {
        proof {
            use_type_invariant(self);
        }
        self.order.len()
    }

    /// The entry at position `index`.
    pub fn entry(&self, index: usize) -> (entry: Breakpoint)
        requires
            index < self@.len(),
        ensures
            entry == self@[index as int],
    {
        proof {
            use_type_invariant(self);
        }
        let address = self.order[index];
        assert(self.order@.contains(address));
        let slot = match self.slots.get(&address) {
            Some(slot) => *slot,
            None => Slot::Pending,
        };
        Breakpoint { address, slot }
    }

    /// Looks up the slot recorded for `addr`.
    pub fn get(&self, addr: usize) -> (slot: Option<Slot>)
        ensures
            slot == self.slot(addr),
    {
        proof {
            use_type_invariant(self);
            lemma_slot_of(self@, addr);
            if self.slots@.contains_key(addr) {
                let i = choose|i: int| 0 <= i < self.order@.len() && self.order@[i] == addr;
                assert(self@[i].address == addr);
            } else if has_address(self@, addr) {
                let i = choose|i: int| 0 <= i < self@.len() && #[trigger] self@[i].address == addr;
                assert(self.order@[i] == addr);
                assert(self.order@.contains(addr));
            }
        }
        match self.slots.get(&addr) {
            Some(slot) => Some(*slot),
            None => None,
        }
    }

    /// Records `addr` as a pending breakpoint and returns its position. An
    /// address that is in the table already is not recorded again: the
    /// table stays as it is and the result is `None`.
    pub fn insert(&mut self, addr: usize) -> (position: Option<usize>)
        ensures
            old(self).slot(addr) is Some ==> position is None && final(self)@ == old(self)@,
            old(self).slot(addr) is None ==> position == Some(old(self)@.len() as usize)
                && final(self)@ == old(self)@.push(Breakpoint { address: addr, slot: Slot::Pending }),
    {
        proof {
            use_type_invariant(&*self);
        }
        if self.get(addr).is_some() {
            return None;
        }
        let position = self.order.len();
        proof {
            lemma_slot_of(self@, addr);
            if self.order@.contains(addr) {
                let i = choose|i: int| 0 <= i < self.order@.len() && self.order@[i] == addr;
                assert(self@[i].address == addr);
            }
        }
        let mut taken = BreakpointTable::new();
        core::mem::swap(self, &mut taken);
        let BreakpointTable { mut order, mut slots } = taken;
        let ghost listed = order@;
        let ghost held = slots@;
        order.push(addr);
        slots.insert(addr, Slot::Pending);
        proof {
            assert forall|a: usize| #[trigger] slots@.contains_key(a) <==> order@.contains(a) by {
                if listed.contains(a) {
                    let i = choose|i: int| 0 <= i < listed.len() && listed[i] == a;
                    assert(order@[i] == a);
                }
                if a == addr {
                    assert(order@[listed.len() as int] == a);
                }
                if order@.contains(a) && a != addr {
                    let i = choose|i: int| 0 <= i < order@.len() && order@[i] == a;
                    assert(listed[i] == a);
                }
            }
            assert forall|i: int, j: int| 0 <= i < j < order@.len() implies order@[i] != order@[j] by {
                if j == listed.len() {
                    assert(listed[i] == order@[i]);
                    assert(listed.contains(order@[i]));
                } else {
                    assert(listed[i] != listed[j]);
                }
            }
        }
        *self = BreakpointTable { order, slots };
        proof {
            assert forall|i: int| 0 <= i < listed.len() implies held[listed[i]] == slots@[listed[i]] by {
                assert(listed.contains(listed[i]));
            }
            assert(self@ =~= old(self)@.push(Breakpoint { address: addr, slot: Slot::Pending }));
        }
        Some(position)
    }

    /// Replaces the slot of the entry at position `index`.
    pub fn set_slot(&mut self, index: usize, slot: Slot)
        requires
            index < old(self)@.len(),
        ensures
            final(self)@ == old(self)@.update(
                index as int,
                Breakpoint { address: old(self)@[index as int].address, slot },
            ),
    {
        proof {
            use_type_invariant(&*self);
        }
        let address = self.order[index];
        let mut taken = BreakpointTable::new();
        core::mem::swap(self, &mut taken);
        let BreakpointTable { order, mut slots } = taken;
        let ghost held = slots@;
        assert(order@.contains(address));
        slots.insert(address, slot);
        proof {
            assert forall|a: usize| #[trigger] slots@.contains_key(a) <==> order@.contains(a) by {
                assert(held.contains_key(a) <==> order@.contains(a));
            }
        }
        *self = BreakpointTable { order, slots };
        proof {
            assert forall|i: int| 0 <= i < order@.len() && i != index implies order@[i]
                != address by {
                if i < index {
                    assert(order@[i] != order@[index as int]);
                } else {
                    assert(order@[index as int] != order@[i]);
                }
            }
            assert(self@ =~= old(self)@.update(
                index as int,
                Breakpoint { address: old(self)@[index as int].address, slot },
            ));
        }
    }
}

} // verus!
