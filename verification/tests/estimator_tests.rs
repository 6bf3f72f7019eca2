use binja_debugger::estimator::MAX_SCAN_BYTES;
use binja_debugger::estimator::VTABLE_HEADER_SIZE;
use binja_debugger::estimator::estimate_method_count;
use binja_debugger::estimator::is_valid_vtable_header;
use binja_debugger::memory::MemRegion;
use binja_debugger::memory::MemorySnapshot;
use binja_debugger::memory::RegionSemantics;
use binja_debugger::memory::SectionTable;

// A section table with one read-only code region at [0x10000000, 0x10001000)
// and one read-write data region at [0x20000000, 0x20001000).
fn table_with_code_and_data() -> SectionTable {
    SectionTable {
        regions: vec![
            MemRegion {
                start: 0x1000_0000,
                size: 0x1000,
                semantics: RegionSemantics::ReadOnlyCode,
            },
            MemRegion {
                start: 0x2000_0000,
                size: 0x1000,
                semantics: RegionSemantics::ReadWriteData,
            },
        ],
    }
}

const CODE_PTR: u64 = 0x1000_0010;
const DATA_PTR: u64 = 0x2000_0010;
const SCAN: u64 = VTABLE_HEADER_SIZE + 1024 * 8;

// A snapshot of a vtable at `base` whose method slots hold `slots`, with a
// plausible header (null drop, size 16, align 8) and nothing beyond.
fn vtable_at(base: u64, slots: &[u64]) -> MemorySnapshot {
    let mut mem = MemorySnapshot::new();
    mem.push_slot(base, 0);
    mem.push_slot(base + 8, 16);
    mem.push_slot(base + 16, 8);
    for (k, &v) in slots.iter().enumerate() {
        mem.push_slot(base + VTABLE_HEADER_SIZE + 8 * k as u64, v);
    }
    mem
}

#[test]
fn classifier_rejects_null_pointer() {
    let table = table_with_code_and_data();
    assert!(!table.is_code_pointer(0));
}

#[test]
fn classifier_accepts_pointer_inside_code_region() {
    let table = table_with_code_and_data();
    assert!(table.is_code_pointer(CODE_PTR));
    assert!(table.is_code_pointer(0x1000_0000));
    assert!(table.is_code_pointer(0x1000_0fff));
}

#[test]
fn classifier_rejects_region_boundaries_and_data() {
    let table = table_with_code_and_data();
    assert!(!table.is_code_pointer(0x1000_1000));
    assert!(!table.is_code_pointer(0x0fff_ffff));
    assert!(!table.is_code_pointer(DATA_PTR));
    assert!(!table.is_code_pointer(0x3000_0000));
}

#[test]
fn classifier_first_containing_region_decides() {
    // Two overlapping regions: the first match wins.
    let table = SectionTable {
        regions: vec![
            MemRegion {
                start: 0x1000,
                size: 0x100,
                semantics: RegionSemantics::ReadOnlyData,
            },
            MemRegion {
                start: 0x1000,
                size: 0x100,
                semantics: RegionSemantics::ReadOnlyCode,
            },
        ],
    };
    assert!(!table.is_code_pointer(0x1080));
}

#[test]
fn estimator_counts_run_until_first_non_code_value() {
    let table = table_with_code_and_data();
    let mem = vtable_at(0x1000, &[CODE_PTR, CODE_PTR, CODE_PTR, 0x42]);
    assert_eq!(estimate_method_count(&mem, &table, 0x1000, SCAN), 3);
}

#[test]
fn estimator_result_ignores_what_lies_beyond_the_terminator() {
    let table = table_with_code_and_data();
    let mut with_garbage = vtable_at(0x1000, &[CODE_PTR, CODE_PTR, 0x42]);
    with_garbage.push_slot(0x1000 + VTABLE_HEADER_SIZE + 24, CODE_PTR);
    with_garbage.push_slot(0x1000 + VTABLE_HEADER_SIZE + 32, 0xdead);
    let bare = vtable_at(0x1000, &[CODE_PTR, CODE_PTR, 0x42]);
    assert_eq!(
        estimate_method_count(&with_garbage, &table, 0x1000, SCAN),
        estimate_method_count(&bare, &table, 0x1000, SCAN)
    );
    assert_eq!(estimate_method_count(&with_garbage, &table, 0x1000, SCAN), 2);
}

#[test]
fn estimator_returns_zero_when_first_slot_after_header_is_not_code() {
    let table = table_with_code_and_data();
    let mem = vtable_at(0x1000, &[DATA_PTR, CODE_PTR]);
    assert_eq!(estimate_method_count(&mem, &table, 0x1000, SCAN), 0);
}

#[test]
fn estimator_treats_unreadable_slot_as_end_of_table() {
    let table = table_with_code_and_data();
    // Five code pointers, then nothing mapped.
    let mem = vtable_at(0x2000, &[CODE_PTR, CODE_PTR, CODE_PTR, CODE_PTR, CODE_PTR]);
    assert_eq!(estimate_method_count(&mem, &table, 0x2000, SCAN), 5);
}

#[test]
fn estimator_is_bounded_by_max_scan_bytes() {
    let table = table_with_code_and_data();
    let mem = vtable_at(0x1000, &[CODE_PTR, CODE_PTR, CODE_PTR, CODE_PTR]);
    // Only two slots fit below the bound.
    let bound = VTABLE_HEADER_SIZE + 16;
    assert_eq!(estimate_method_count(&mem, &table, 0x1000, bound), 2);
    assert_eq!(estimate_method_count(&mem, &table, 0x1000, VTABLE_HEADER_SIZE), 0);
    assert_eq!(estimate_method_count(&mem, &table, 0x1000, 0), 0);
}

#[test]
fn estimator_accepts_the_hard_scan_bound() {
    let table = table_with_code_and_data();
    let mem = vtable_at(0x1000, &[CODE_PTR]);
    assert_eq!(estimate_method_count(&mem, &table, 0x1000, MAX_SCAN_BYTES), 1);
}

#[test]
fn header_with_null_drop_and_sane_fields_is_valid() {
    let table = table_with_code_and_data();
    let mem = vtable_at(0x1000, &[CODE_PTR]);
    assert!(is_valid_vtable_header(&mem, &table, 0x1000));
}

#[test]
fn header_with_code_drop_pointer_is_valid() {
    let table = table_with_code_and_data();
    let mut mem = MemorySnapshot::new();
    mem.push_slot(0x1000, CODE_PTR);
    mem.push_slot(0x1008, 64);
    mem.push_slot(0x1010, 16);
    assert!(is_valid_vtable_header(&mem, &table, 0x1000));
}

#[test]
fn header_with_non_code_drop_pointer_is_invalid() {
    let table = table_with_code_and_data();
    let mut mem = MemorySnapshot::new();
    mem.push_slot(0x1000, DATA_PTR);
    mem.push_slot(0x1008, 64);
    mem.push_slot(0x1010, 16);
    assert!(!is_valid_vtable_header(&mem, &table, 0x1000));
}

#[test]
fn header_with_oversized_type_is_invalid() {
    let table = table_with_code_and_data();
    let mut mem = MemorySnapshot::new();
    mem.push_slot(0x1000, 0);
    mem.push_slot(0x1008, 0x100001);
    mem.push_slot(0x1010, 8);
    assert!(!is_valid_vtable_header(&mem, &table, 0x1000));
}

#[test]
fn header_with_bad_alignment_is_invalid() {
    let table = table_with_code_and_data();
    for align in [0u64, 3, 6, 8192] {
        let mut mem = MemorySnapshot::new();
        mem.push_slot(0x1000, 0);
        mem.push_slot(0x1008, 64);
        mem.push_slot(0x1010, align);
        assert!(
            !is_valid_vtable_header(&mem, &table, 0x1000),
            "alignment {} must be rejected",
            align
        );
    }
}

#[test]
fn header_with_unreadable_slot_is_invalid() {
    let table = table_with_code_and_data();
    let mut mem = MemorySnapshot::new();
    mem.push_slot(0x1000, 0);
    mem.push_slot(0x1008, 64);
    // Alignment slot unreadable.
    assert!(!is_valid_vtable_header(&mem, &table, 0x1000));
}

#[test]
fn snapshot_read_finds_only_recorded_slots() {
    let mut mem = MemorySnapshot::new();
    mem.push_slot(0x500, 7);
    assert_eq!(mem.read_u64(0x500), Some(7));
    assert_eq!(mem.read_u64(0x501), None);
    assert_eq!(mem.read_u64(0), None);
}
