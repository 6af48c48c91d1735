use syskit::breakpoints::{Breakpoint, BreakpointTable, Slot};

#[test]
fn new_table_is_empty() {
    let table = BreakpointTable::new();
    assert_eq!(table.len(), 0);
    assert_eq!(table.get(0), None);
    assert_eq!(table.get(0x401000), None);
}

#[test]
fn insert_records_a_pending_breakpoint() {
    let mut table = BreakpointTable::new();
    assert_eq!(table.insert(0x401000), Some(0));
    assert_eq!(table.insert(0x400000), Some(1));
    assert_eq!(table.insert(usize::MAX), Some(2));
    assert_eq!(table.len(), 3);
    assert_eq!(table.get(0x401000), Some(Slot::Pending));
    assert_eq!(table.get(0x400000), Some(Slot::Pending));
    assert_eq!(table.get(0x401001), None);
    assert_eq!(table.entry(0), Breakpoint { address: 0x401000, slot: Slot::Pending });
    assert_eq!(table.entry(2), Breakpoint { address: usize::MAX, slot: Slot::Pending });
}

#[test]
fn insert_keeps_each_address_once() {
    let mut table = BreakpointTable::new();
    assert_eq!(table.insert(0x401000), Some(0));
    table.set_slot(0, Slot::Armed(0x55));
    assert_eq!(table.insert(0x401000), None);
    assert_eq!(table.len(), 1);
    assert_eq!(table.get(0x401000), Some(Slot::Armed(0x55)));
}

#[test]
fn set_slot_tells_pending_from_a_displaced_zero() {
    let mut table = BreakpointTable::new();
    table.insert(0x10);
    table.insert(0x20);
    table.set_slot(1, Slot::Armed(0x00));
    assert_eq!(table.get(0x10), Some(Slot::Pending));
    assert_eq!(table.get(0x20), Some(Slot::Armed(0)));
    assert!(Slot::Pending != Slot::Armed(0));
    table.set_slot(1, Slot::Pending);
    assert_eq!(table.entry(1), Breakpoint { address: 0x20, slot: Slot::Pending });
}
