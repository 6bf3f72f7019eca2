use binja_debugger::controller::CallSiteRecord;
use binja_debugger::controller::Observation;
use binja_debugger::debug_types::BNDebugThread;
use binja_debugger::debug_types::DebugRegister;
use binja_debugger::debug_types::DebugThread;
use binja_debugger::scanner::CallSite;
use binja_debugger::synth::annotation_text;
use binja_debugger::synth::generate_vtable_type_def;
use binja_debugger::synth::layout_name;
use binja_debugger::synth::max_method_count;
use binja_debugger::synth::synthesize;

fn obs(vtable_ptr: u64, method_count: u64) -> Observation {
    Observation {
        vtable_ptr,
        method_count,
        resolved_target: None,
        hits: 1,
    }
}

fn record(address: u64, observations: Vec<Observation>) -> CallSiteRecord {
    CallSiteRecord {
        site: CallSite { address, offset: 0 },
        observations,
    }
}

#[test]
fn max_method_count_of_empty_record_is_zero() {
    let rec = record(0x1000, vec![]);
    assert_eq!(max_method_count(&rec), 0);
}

#[test]
fn max_method_count_takes_the_largest_observation() {
    let rec = record(0x1000, vec![obs(0x10, 3), obs(0x20, 7), obs(0x30, 5)]);
    assert_eq!(max_method_count(&rec), 7);
}

#[test]
fn synthesize_skips_sites_where_nothing_was_learned() {
    let records = vec![
        record(0x1000, vec![obs(0x10, 0)]),
        record(0x2000, vec![]),
        record(0x3000, vec![obs(0x20, 2)]),
    ];
    let layouts = synthesize(&records);
    assert_eq!(layouts.len(), 1);
    assert_eq!(layouts[0].site_address, 0x3000);
    assert_eq!(layouts[0].method_count, 2);
}

#[test]
fn synthesize_keeps_record_order() {
    let records = vec![
        record(0x3000, vec![obs(0x20, 2)]),
        record(0x1000, vec![obs(0x10, 9)]),
    ];
    let layouts = synthesize(&records);
    assert_eq!(layouts.len(), 2);
    assert_eq!(layouts[0].site_address, 0x3000);
    assert_eq!(layouts[1].site_address, 0x1000);
    assert_eq!(layouts[1].method_count, 9);
}

#[test]
fn layout_name_is_deterministic_hex_of_the_address() {
    assert_eq!(layout_name(0xdeadbeef), "VTable_deadbeef");
    assert_eq!(layout_name(0), "VTable_0");
    assert_eq!(layout_name(16), "VTable_10");
    assert_eq!(layout_name(u64::MAX), "VTable_ffffffffffffffff");
    // Repeated runs against the same site produce the same name.
    assert_eq!(layout_name(0x401000), layout_name(0x401000));
}

#[test]
fn type_def_lays_out_header_then_numbered_method_slots() {
    let expected = "struct VTable_1a2b {\n\
                    \x20   void* drop;\n\
                    \x20   uint64_t size;\n\
                    \x20   uint64_t align;\n\
                    \x20   void* method1;\n\
                    \x20   void* method2;\n\
                    };\n";
    assert_eq!(generate_vtable_type_def(0x1a2b, 2), expected);
}

#[test]
fn type_def_with_zero_methods_holds_only_the_header() {
    let expected = "struct VTable_40 {\n\
                    \x20   void* drop;\n\
                    \x20   uint64_t size;\n\
                    \x20   uint64_t align;\n\
                    };\n";
    assert_eq!(generate_vtable_type_def(0x40, 0), expected);
}

#[test]
fn annotation_lists_every_distinct_observation() {
    let rec = record(0x1000, vec![obs(0x1000, 3), obs(0x2000, 5)]);
    assert_eq!(
        annotation_text(&rec),
        "VTables: 0x1000(3 methods), 0x2000(5 methods)"
    );
}

#[test]
fn annotation_of_empty_record_is_bare() {
    let rec = record(0x1000, vec![]);
    assert_eq!(annotation_text(&rec), "VTables: ");
}

#[test]
fn register_value_u64_reads_little_endian() {
    let reg = DebugRegister {
        name: String::from("rax"),
        value: vec![0x78, 0x56, 0x34, 0x12],
        width: 4,
        register_index: 0,
        hint: String::new(),
    };
    assert_eq!(reg.value_u64(), 0x12345678);
}

#[test]
fn register_value_u64_takes_at_most_eight_bytes() {
    let reg = DebugRegister {
        name: String::from("xmm0"),
        value: vec![1, 0, 0, 0, 0, 0, 0, 0, 0xff, 0xff],
        width: 16,
        register_index: 0,
        hint: String::new(),
    };
    assert_eq!(reg.value_u64(), 1);
    let empty = DebugRegister {
        name: String::from("none"),
        value: vec![],
        width: 0,
        register_index: 0,
        hint: String::new(),
    };
    assert_eq!(empty.value_u64(), 0);
}

#[test]
fn debug_thread_round_trips_through_its_raw_form() {
    let raw = BNDebugThread {
        m_tid: 42,
        m_rip: 0x401000,
        m_isFrozen: true,
    };
    let t = DebugThread::from_raw(&raw);
    assert_eq!(t.tid, 42);
    assert_eq!(t.rip, 0x401000);
    assert!(t.is_frozen);
    let back = t.to_raw();
    assert_eq!(back, raw);
}
