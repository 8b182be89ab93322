use deet::breakpoints::{Breakpoint, BreakpointTable};
use deet::word::TRAP_BYTE;

#[test]
fn a_new_table_is_empty() {
    let table = BreakpointTable::new();
    assert_eq!(table.len(), 0);
    assert_eq!(table.find(0x1000), None);
    assert_eq!(table.armed_at(0x1000), None);
    assert_eq!(table.hit_at(0x1001), None);
}

#[test]
fn set_gives_indices_in_order_of_insertion() {
    let mut table = BreakpointTable::new();
    assert_eq!(table.set(0x4005b6), 0);
    assert_eq!(table.set(0x400600), 1);
    assert_eq!(table.set(0x4005b6), 0);
    assert_eq!(table.len(), 2);
    assert_eq!(table.get(0), Breakpoint { address: 0x4005b6, original: None });
    assert_eq!(table.get(1), Breakpoint { address: 0x400600, original: None });
    assert_eq!(table.find(0x400600), Some(1));
    assert_eq!(table.find(0x400601), None);
}

#[test]
fn a_requested_breakpoint_is_not_armed() {
    let mut table = BreakpointTable::new();
    table.set(0x4005b6);
    assert_eq!(table.armed_at(0x4005b6), None);
    assert_eq!(table.hit_at(0x4005b7), None);
}

#[test]
fn an_installed_breakpoint_is_hit_one_byte_behind_it() {
    let mut table = BreakpointTable::new();
    let id = table.set(0x4005b6);
    table.record_install(id, 0x55);
    assert_eq!(table.get(id), Breakpoint { address: 0x4005b6, original: Some(0x55) });
    assert_eq!(table.armed_at(0x4005b6), Some(0x55));
    assert_eq!(table.hit_at(0x4005b7), Some((0x4005b6, 0x55)));
    assert_eq!(table.hit_at(0x4005b6), None);
    assert_eq!(table.hit_at(0x4005b8), None);
    assert_eq!(table.hit_at(0), None);
}

#[test]
fn a_breakpoint_at_address_zero_is_hit_at_one() {
    let mut table = BreakpointTable::new();
    assert_eq!(table.install(0, 0x90), 0);
    assert_eq!(table.hit_at(1), Some((0, 0x90)));
    assert_eq!(table.hit_at(0), None);
}

#[test]
fn installing_twice_at_one_address_keeps_the_original_byte() {
    let mut table = BreakpointTable::new();
    assert_eq!(table.install(0x4005b6, 0x55), 0);
    assert_eq!(table.install(0x4005b6, TRAP_BYTE), 0);
    assert_eq!(table.len(), 1);
    assert_eq!(table.armed_at(0x4005b6), Some(0x55));
}

#[test]
fn a_first_installation_over_a_trap_records_the_trap() {
    let mut table = BreakpointTable::new();
    table.install(0x4005b6, TRAP_BYTE);
    assert_eq!(table.armed_at(0x4005b6), Some(TRAP_BYTE));
}

#[test]
fn an_armed_entry_takes_a_new_byte_that_is_not_the_trap() {
    let mut table = BreakpointTable::new();
    table.install(0x4005b6, 0x55);
    table.install(0x4005b6, 0x48);
    assert_eq!(table.armed_at(0x4005b6), Some(0x48));
}

#[test]
fn disarming_keeps_the_addresses() {
    let mut table = BreakpointTable::new();
    table.install(0x10, 1);
    table.set(0x20);
    table.install(0x30, 3);
    table.disarm_all();
    assert_eq!(table.len(), 3);
    assert_eq!(table.get(0), Breakpoint { address: 0x10, original: None });
    assert_eq!(table.get(1), Breakpoint { address: 0x20, original: None });
    assert_eq!(table.get(2), Breakpoint { address: 0x30, original: None });
    assert_eq!(table.hit_at(0x11), None);
}
