use binja_debugger::controller::SessionState;
use binja_debugger::controller::TraceController;
use binja_debugger::debug_types::BNDebugStopReason;
use binja_debugger::estimator::VTABLE_HEADER_SIZE;
use binja_debugger::memory::MemRegion;
use binja_debugger::memory::MemorySnapshot;
use binja_debugger::memory::RegionSemantics;
use binja_debugger::memory::SectionTable;
use binja_debugger::rebase::RebaseOffset;
use binja_debugger::scanner::CallSite;
use binja_debugger::synth::synthesize_session;

const SCAN: u64 = VTABLE_HEADER_SIZE + 1024 * 8;
const CODE_PTR: u64 = 0x1000_0010;

fn code_table() -> SectionTable {
    SectionTable {
        regions: vec![MemRegion {
            start: 0x1000_0000,
            size: 0x1000,
            semantics: RegionSemantics::ReadOnlyCode,
        }],
    }
}

fn vtable_at(base: u64, slots: &[u64]) -> MemorySnapshot {
    let mut mem = MemorySnapshot::new();
    mem.push_slot(base, 0);
    mem.push_slot(base + 8, 16);
    mem.push_slot(base + 16, 8);
    for (k, &v) in slots.iter().enumerate() {
        mem.push_slot(base + VTABLE_HEADER_SIZE + 8 * k as u64, v);
    }
    mem
}

#[test]
fn rebase_translate_round_trips_for_any_address() {
    let r = RebaseOffset::compute_offset(0x400000, 0x5555_5555_4000);
    for addr in [0u64, 1, 0x400000, u64::MAX, 0x8000_0000_0000_0000] {
        assert_eq!(r.translate(r.translate_inverse(addr)), addr);
        assert_eq!(r.translate_inverse(r.translate(addr)), addr);
    }
}

#[test]
fn rebase_offset_is_zero_for_unknown_or_equal_entry() {
    assert_eq!(RebaseOffset::compute_offset(0x400000, 0).bias, 0);
    assert_eq!(RebaseOffset::compute_offset(0x400000, 0x400000).bias, 0);
}

#[test]
fn rebase_offset_is_entry_difference() {
    let r = RebaseOffset::compute_offset(0x1000, 0x5000);
    assert_eq!(r.bias, 0x4000);
    assert_eq!(r.translate(0x1100), 0x5100);
    assert_eq!(r.translate_inverse(0x5100), 0x1100);
    // A negative bias wraps around.
    let d = RebaseOffset::compute_offset(0x5000, 0x1000);
    assert_eq!(d.translate(0x5100), 0x1100);
}

#[test]
fn empty_call_site_list_installs_no_breakpoints() {
    let mut c = TraceController::new(Vec::new(), 0x400000, SCAN);
    assert_eq!(c.state, SessionState::NotLaunched);
    let bps = c.on_launch(BNDebugStopReason::InitialBreakpoint, 0x400000);
    assert!(bps.is_empty());
    assert_eq!(c.state, SessionState::Tracing);
    assert!(!c.is_hit(0x400000));
}

#[test]
fn launch_that_exits_early_is_fatal_for_the_session() {
    let sites = vec![CallSite { address: 0x401000, offset: 0 }];
    let mut c = TraceController::new(sites, 0x400000, SCAN);
    let bps = c.on_launch(BNDebugStopReason::ProcessExited, 0);
    assert!(bps.is_empty());
    assert_eq!(c.state, SessionState::Exited);
}

#[test]
fn non_pie_image_keeps_breakpoints_at_static_addresses() {
    let sites = vec![
        CallSite { address: 0x401000, offset: 0 },
        CallSite { address: 0x402000, offset: 0x18 },
    ];
    let mut c = TraceController::new(sites.clone(), 0x400000, SCAN);
    let bps = c.on_launch(BNDebugStopReason::InitialBreakpoint, 0x400000);
    assert_eq!(c.rebase.bias, 0);
    assert_eq!(bps, vec![0x401000, 0x402000]);
    assert!(c.is_hit(0x401000));
    assert!(c.is_hit(0x402000));
    assert!(!c.is_hit(0x403000));
}

#[test]
fn pie_image_translates_every_breakpoint_by_the_same_bias() {
    let sites = vec![
        CallSite { address: 0x1000, offset: 0 },
        CallSite { address: 0x2000, offset: 8 },
    ];
    let mut c = TraceController::new(sites, 0x400, SCAN);
    let bps = c.on_launch(BNDebugStopReason::InitialBreakpoint, 0x7000_0400);
    assert_eq!(c.rebase.bias, 0x7000_0000);
    assert_eq!(bps, vec![0x7000_1000, 0x7000_2000]);
    assert!(c.is_hit(0x7000_1000));
    assert!(!c.is_hit(0x1000));
}

#[test]
fn duplicate_call_site_addresses_collapse_to_one_breakpoint() {
    let sites = vec![
        CallSite { address: 0x401000, offset: 0 },
        CallSite { address: 0x401000, offset: 0x18 },
        CallSite { address: 0x402000, offset: 0 },
    ];
    let mut c = TraceController::new(sites, 0x400000, SCAN);
    let bps = c.on_launch(BNDebugStopReason::InitialBreakpoint, 0x400000);
    assert_eq!(bps, vec![0x401000, 0x402000]);
}

#[test]
fn zero_base_register_records_nothing() {
    let sites = vec![CallSite { address: 0x401000, offset: 0 }];
    let mut c = TraceController::new(sites, 0x400000, SCAN);
    c.on_launch(BNDebugStopReason::InitialBreakpoint, 0x400000);
    let table = code_table();
    let mem = vtable_at(0x1000, &[CODE_PTR]);
    assert!(!c.record_hit(0x401000, 0, &mem, &table));
    assert!(c.records.is_empty());
}

#[test]
fn unmatched_stop_records_nothing() {
    let sites = vec![CallSite { address: 0x401000, offset: 0 }];
    let mut c = TraceController::new(sites, 0x400000, SCAN);
    c.on_launch(BNDebugStopReason::InitialBreakpoint, 0x400000);
    assert!(!c.is_hit(0x999999));
    let table = code_table();
    let mem = vtable_at(0x1000, &[CODE_PTR]);
    assert!(!c.record_hit(0x999999, 0x1000, &mem, &table));
    assert!(c.records.is_empty());
}

#[test]
fn same_vtable_pointer_twice_yields_one_observation() {
    let sites = vec![CallSite { address: 0x401000, offset: 0 }];
    let mut c = TraceController::new(sites, 0x400000, SCAN);
    c.on_launch(BNDebugStopReason::InitialBreakpoint, 0x400000);
    let table = code_table();
    let mem = vtable_at(0x1000, &[CODE_PTR, CODE_PTR]);
    assert!(c.record_hit(0x401000, 0x1000, &mem, &table));
    assert!(!c.record_hit(0x401000, 0x1000, &mem, &table));
    assert_eq!(c.records.len(), 1);
    assert_eq!(c.records[0].observations.len(), 1);
    assert_eq!(c.records[0].observations[0].vtable_ptr, 0x1000);
    assert_eq!(c.records[0].observations[0].hits, 2);
}

#[test]
fn two_distinct_vtable_pointers_yield_two_observations() {
    let sites = vec![CallSite { address: 0x401000, offset: 0 }];
    let mut c = TraceController::new(sites, 0x400000, SCAN);
    c.on_launch(BNDebugStopReason::InitialBreakpoint, 0x400000);
    let table = code_table();
    let mem1 = vtable_at(0x1000, &[CODE_PTR]);
    let mem2 = vtable_at(0x2000, &[CODE_PTR, CODE_PTR]);
    assert!(c.record_hit(0x401000, 0x1000, &mem1, &table));
    assert!(c.record_hit(0x401000, 0x2000, &mem2, &table));
    assert_eq!(c.records.len(), 1);
    assert_eq!(c.records[0].observations.len(), 2);
    assert_eq!(c.records[0].observations[0].vtable_ptr, 0x1000);
    assert_eq!(c.records[0].observations[1].vtable_ptr, 0x2000);
}

#[test]
fn hundred_sightings_of_one_pointer_yield_one_observation() {
    let sites = vec![CallSite { address: 0x401000, offset: 0 }];
    let mut c = TraceController::new(sites, 0x400000, SCAN);
    c.on_launch(BNDebugStopReason::InitialBreakpoint, 0x400000);
    let table = code_table();
    let mem = vtable_at(0x1000, &[CODE_PTR]);
    let mut new_records = 0;
    for _ in 0..100 {
        if c.record_hit(0x401000, 0x1000, &mem, &table) {
            new_records += 1;
        }
    }
    assert_eq!(new_records, 1);
    assert_eq!(c.records.len(), 1);
    assert_eq!(c.records[0].observations.len(), 1);
    assert_eq!(c.records[0].observations[0].hits, 100);
}

#[test]
fn trace_scenario_two_vtables_synthesize_max_methods() {
    // One call site at offset 0, observed with vtable 0x1000 (three valid
    // slots, then garbage) and vtable 0x2000 (five valid slots, then
    // unreadable memory).
    let sites = vec![CallSite { address: 0x401000, offset: 0 }];
    let mut c = TraceController::new(sites, 0x400000, SCAN);
    let bps = c.on_launch(BNDebugStopReason::InitialBreakpoint, 0x400000);
    assert_eq!(bps, vec![0x401000]);
    let table = code_table();
    let mem1 = vtable_at(0x1000, &[CODE_PTR, CODE_PTR, CODE_PTR, 0x42]);
    let mem2 = vtable_at(0x2000, &[CODE_PTR, CODE_PTR, CODE_PTR, CODE_PTR, CODE_PTR]);
    assert!(c.is_hit(0x401000));
    assert!(c.record_hit(0x401000, 0x1000, &mem1, &table));
    assert!(c.record_hit(0x401000, 0x2000, &mem2, &table));
    c.on_exit(0);
    assert_eq!(c.state, SessionState::Exited);
    assert_eq!(c.exit_code, Some(0));

    assert_eq!(c.records.len(), 1);
    let obs = &c.records[0].observations;
    assert_eq!(obs.len(), 2);
    assert_eq!(obs[0].method_count, 3);
    assert_eq!(obs[1].method_count, 5);

    let layouts = synthesize_session(&c);
    assert_eq!(layouts.len(), 1);
    assert_eq!(layouts[0].site_address, 0x401000);
    assert_eq!(layouts[0].method_count, 5);
}

#[test]
fn observation_resolves_call_target_at_base_plus_offset() {
    let sites = vec![CallSite { address: 0x401000, offset: 0x18 }];
    let mut c = TraceController::new(sites, 0x400000, SCAN);
    c.on_launch(BNDebugStopReason::InitialBreakpoint, 0x400000);
    let table = code_table();
    let mem = vtable_at(0x1000, &[CODE_PTR]);
    // base + 0x18 is the first method slot, holding CODE_PTR.
    assert!(c.record_hit(0x401000, 0x1000, &mem, &table));
    assert_eq!(c.records[0].observations[0].resolved_target, Some(CODE_PTR));
}

#[test]
fn two_call_sites_accumulate_separate_records() {
    let sites = vec![
        CallSite { address: 0x401000, offset: 0 },
        CallSite { address: 0x402000, offset: 0 },
    ];
    let mut c = TraceController::new(sites, 0x400000, SCAN);
    c.on_launch(BNDebugStopReason::InitialBreakpoint, 0x400000);
    let table = code_table();
    let mem = vtable_at(0x1000, &[CODE_PTR]);
    assert!(c.record_hit(0x401000, 0x1000, &mem, &table));
    assert!(c.record_hit(0x402000, 0x1000, &mem, &table));
    assert_eq!(c.records.len(), 2);
    assert_eq!(c.records[0].site.address, 0x401000);
    assert_eq!(c.records[1].site.address, 0x402000);
}
