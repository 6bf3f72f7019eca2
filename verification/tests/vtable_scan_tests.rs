use binja_debugger::estimator::VTABLE_HEADER_SIZE;
use binja_debugger::memory::MemRegion;
use binja_debugger::memory::MemorySnapshot;
use binja_debugger::memory::RegionSemantics;
use binja_debugger::memory::SectionTable;
use binja_debugger::vtable_scan::compute_vtable_sizes;
use binja_debugger::vtable_scan::find_vtables_in_range;
use binja_debugger::vtable_scan::get_vtable_size;
use binja_debugger::vtable_scan::parse_vtable;
use binja_debugger::vtable_scan::scan_for_vtables;
use binja_debugger::vtable_scan::sort_addresses;

const CODE_PTR: u64 = 0x1000_0010;
const SCAN: u64 = VTABLE_HEADER_SIZE + 1024 * 8;

fn code_table() -> SectionTable {
    SectionTable {
        regions: vec![MemRegion {
            start: 0x1000_0000,
            size: 0x1000,
            semantics: RegionSemantics::ReadOnlyCode,
        }],
    }
}

fn push_vtable(mem: &mut MemorySnapshot, base: u64, drop_fn: u64, slots: &[u64]) {
    mem.push_slot(base, drop_fn);
    mem.push_slot(base + 8, 16);
    mem.push_slot(base + 16, 8);
    for (k, &v) in slots.iter().enumerate() {
        mem.push_slot(base + VTABLE_HEADER_SIZE + 8 * k as u64, v);
    }
}

#[test]
fn vtable_size_counts_header_and_method_slots() {
    let table = code_table();
    let mut mem = MemorySnapshot::new();
    push_vtable(&mut mem, 0x1000, 0, &[CODE_PTR, CODE_PTR, 0x42]);
    assert_eq!(get_vtable_size(&mem, &table, 0x1000, SCAN), VTABLE_HEADER_SIZE + 16);
}

#[test]
fn parse_vtable_yields_header_fields_and_methods() {
    let table = code_table();
    let mut mem = MemorySnapshot::new();
    push_vtable(&mut mem, 0x1000, CODE_PTR, &[0x1000_0020, 0x1000_0030, 0x42]);
    let info = parse_vtable(&mem, &table, 0x1000, SCAN).expect("header is plausible");
    assert_eq!(info.address, 0x1000);
    assert_eq!(info.drop_fn, CODE_PTR);
    assert!(info.has_drop());
    assert_eq!(info.type_size, 16);
    assert!(!info.is_zst());
    assert_eq!(info.type_align, 8);
    assert_eq!(info.method_count, 2);
    assert_eq!(info.methods, vec![0x1000_0020, 0x1000_0030]);
    assert_eq!(info.size, VTABLE_HEADER_SIZE + 16);
}

#[test]
fn parse_vtable_rejects_implausible_header() {
    let table = code_table();
    let mut mem = MemorySnapshot::new();
    // Alignment of 3 is not a power of two.
    mem.push_slot(0x1000, 0);
    mem.push_slot(0x1008, 16);
    mem.push_slot(0x1010, 3);
    mem.push_slot(0x1000 + VTABLE_HEADER_SIZE, CODE_PTR);
    assert!(parse_vtable(&mem, &table, 0x1000, SCAN).is_none());
    // Unreadable header.
    let empty = MemorySnapshot::new();
    assert!(parse_vtable(&empty, &table, 0x1000, SCAN).is_none());
}

#[test]
fn parse_vtable_with_no_method_run_yields_zero_methods_not_an_error() {
    let table = code_table();
    let mut mem = MemorySnapshot::new();
    push_vtable(&mut mem, 0x1000, 0, &[0x42]);
    let info = parse_vtable(&mem, &table, 0x1000, SCAN).expect("header is plausible");
    assert_eq!(info.method_count, 0);
    assert!(info.methods.is_empty());
    assert_eq!(info.size, VTABLE_HEADER_SIZE);
}

#[test]
fn sort_addresses_orders_ascending() {
    let addrs = vec![0x3000u64, 0x1000, 0x2000, 0x1000];
    assert_eq!(sort_addresses(&addrs), vec![0x1000, 0x1000, 0x2000, 0x3000]);
    assert_eq!(sort_addresses(&Vec::new()), Vec::<u64>::new());
}

#[test]
fn compute_vtable_sizes_bounds_each_scan_by_its_neighbor() {
    let table = code_table();
    let mut mem = MemorySnapshot::new();
    // Two adjacent vtables: the first runs into the second's header, so its
    // scan is bounded at the neighbor (24 + 2 * 8 = 40 bytes => 2 slots).
    push_vtable(&mut mem, 0x1000, 0, &[CODE_PTR, CODE_PTR]);
    push_vtable(&mut mem, 0x1028, 0, &[CODE_PTR, 0x42]);
    let infos = compute_vtable_sizes(&mem, &table, &vec![0x1028, 0x1000]);
    assert_eq!(infos.len(), 2);
    assert_eq!(infos[0].address, 0x1000);
    assert_eq!(infos[0].method_count, 2);
    assert_eq!(infos[1].address, 0x1028);
    assert_eq!(infos[1].method_count, 1);
}

#[test]
fn compute_vtable_sizes_skips_implausible_addresses() {
    let table = code_table();
    let mut mem = MemorySnapshot::new();
    push_vtable(&mut mem, 0x1000, 0, &[CODE_PTR, 0x42]);
    let infos = compute_vtable_sizes(&mem, &table, &vec![0x5000, 0x1000]);
    assert_eq!(infos.len(), 1);
    assert_eq!(infos[0].address, 0x1000);
    assert_eq!(infos[0].method_count, 1);
}

#[test]
fn compute_vtable_sizes_of_empty_batch_is_empty() {
    let table = code_table();
    let mem = MemorySnapshot::new();
    assert!(compute_vtable_sizes(&mem, &table, &Vec::new()).is_empty());
}

#[test]
fn scan_finds_candidates_and_skips_past_their_headers() {
    let table = code_table();
    let mut mem = MemorySnapshot::new();
    push_vtable(&mut mem, 0x1000, 0, &[CODE_PTR, 0x42]);
    push_vtable(&mut mem, 0x1100, CODE_PTR, &[CODE_PTR, CODE_PTR, 0x42]);
    let found = scan_for_vtables(&mem, &table, 0x1000, 0x1200);
    assert_eq!(found, vec![0x1000, 0x1100]);
}

#[test]
fn scan_requires_at_least_one_method_pointer() {
    let table = code_table();
    let mut mem = MemorySnapshot::new();
    // Plausible header, but the first slot after it is not code.
    push_vtable(&mut mem, 0x1000, 0, &[0x42]);
    let found = scan_for_vtables(&mem, &table, 0x1000, 0x1100);
    assert!(found.is_empty());
}

#[test]
fn scan_aligns_the_start_upward() {
    let table = code_table();
    let mut mem = MemorySnapshot::new();
    push_vtable(&mut mem, 0x1008, 0, &[CODE_PTR]);
    // Starting at 0x1001 must round up to 0x1008 and still find it.
    let found = scan_for_vtables(&mem, &table, 0x1001, 0x1100);
    assert_eq!(found, vec![0x1008]);
}

#[test]
fn scan_of_empty_or_reversed_range_finds_nothing() {
    let table = code_table();
    let mem = MemorySnapshot::new();
    assert!(scan_for_vtables(&mem, &table, 0x1000, 0x1000).is_empty());
    assert!(scan_for_vtables(&mem, &table, 0x2000, 0x1000).is_empty());
}

#[test]
fn find_vtables_in_range_parses_every_candidate() {
    let table = code_table();
    let mut mem = MemorySnapshot::new();
    push_vtable(&mut mem, 0x1000, 0, &[CODE_PTR, 0x42]);
    push_vtable(&mut mem, 0x1100, 0, &[CODE_PTR, CODE_PTR, 0x42]);
    let infos = find_vtables_in_range(&mem, &table, 0x1000, 0x1200);
    assert_eq!(infos.len(), 2);
    assert_eq!(infos[0].address, 0x1000);
    assert_eq!(infos[0].method_count, 1);
    assert_eq!(infos[1].address, 0x1100);
    assert_eq!(infos[1].method_count, 2);
}
