use binja_debugger::scanner::BasicBlock;
use binja_debugger::scanner::CallSite;
use binja_debugger::scanner::FunctionCode;
use binja_debugger::scanner::InstrKind;
use binja_debugger::scanner::Instruction;
use binja_debugger::scanner::TargetExpr;
use binja_debugger::scanner::match_call_target;
use binja_debugger::scanner::scan_function;
use binja_debugger::scanner::scan_functions;

const BASE_REG: u32 = 0;

fn load_of(inner: TargetExpr) -> TargetExpr {
    TargetExpr::Load(Box::new(inner))
}

fn call_at(address: u64, target: TargetExpr) -> Instruction {
    Instruction {
        address,
        kind: InstrKind::Call(target),
    }
}

fn function_of(instructions: Vec<Instruction>) -> FunctionCode {
    FunctionCode {
        blocks: vec![BasicBlock { instructions }],
    }
}

#[test]
fn pattern_a_bare_base_register_matches_offset_zero() {
    let t = load_of(TargetExpr::Reg(BASE_REG));
    assert_eq!(match_call_target(&t, BASE_REG), Some(0));
}

#[test]
fn pattern_b_base_plus_constant_matches_constant_offset() {
    let t = load_of(TargetExpr::Sum(
        Box::new(TargetExpr::Reg(BASE_REG)),
        Box::new(TargetExpr::Constant(0x18)),
    ));
    assert_eq!(match_call_target(&t, BASE_REG), Some(0x18));
}

#[test]
fn pattern_b_negative_constant_is_kept_signed() {
    let t = load_of(TargetExpr::Sum(
        Box::new(TargetExpr::Reg(BASE_REG)),
        Box::new(TargetExpr::Constant(-8)),
    ));
    assert_eq!(match_call_target(&t, BASE_REG), Some(-8));
}

#[test]
fn other_register_does_not_match() {
    let t = load_of(TargetExpr::Reg(7));
    assert_eq!(match_call_target(&t, BASE_REG), None);
}

#[test]
fn direct_target_without_load_does_not_match() {
    let t = TargetExpr::Reg(BASE_REG);
    assert_eq!(match_call_target(&t, BASE_REG), None);
    let c = TargetExpr::Constant(0x401000);
    assert_eq!(match_call_target(&c, BASE_REG), None);
}

#[test]
fn computed_right_hand_side_does_not_match() {
    // base + (base + 8): the right-hand side must be a literal constant.
    let t = load_of(TargetExpr::Sum(
        Box::new(TargetExpr::Reg(BASE_REG)),
        Box::new(TargetExpr::Sum(
            Box::new(TargetExpr::Reg(BASE_REG)),
            Box::new(TargetExpr::Constant(8)),
        )),
    ));
    assert_eq!(match_call_target(&t, BASE_REG), None);
}

#[test]
fn constant_plus_register_wrong_association_does_not_match() {
    // constant + base: only the left-associated "base + constant" matches.
    let t = load_of(TargetExpr::Sum(
        Box::new(TargetExpr::Constant(8)),
        Box::new(TargetExpr::Reg(BASE_REG)),
    ));
    assert_eq!(match_call_target(&t, BASE_REG), None);
}

#[test]
fn opaque_target_does_not_match() {
    let t = load_of(TargetExpr::Opaque);
    assert_eq!(match_call_target(&t, BASE_REG), None);
}

#[test]
fn scan_function_recovers_exact_address_and_offset_pairs() {
    let func = function_of(vec![
        call_at(0x1000, load_of(TargetExpr::Reg(BASE_REG))),
        Instruction {
            address: 0x1005,
            kind: InstrKind::NonCall,
        },
        call_at(
            0x100a,
            load_of(TargetExpr::Sum(
                Box::new(TargetExpr::Reg(BASE_REG)),
                Box::new(TargetExpr::Constant(0x20)),
            )),
        ),
        call_at(0x1010, TargetExpr::Constant(0x5000)),
        call_at(0x1018, load_of(TargetExpr::Reg(3))),
    ]);
    let sites = scan_function(&func, BASE_REG);
    assert_eq!(sites.len(), 2);
    assert_eq!(sites[0], CallSite { address: 0x1000, offset: 0 });
    assert_eq!(sites[1], CallSite { address: 0x100a, offset: 0x20 });
}

#[test]
fn scan_functions_skips_unlifted_functions_silently() {
    let funcs = vec![
        None,
        Some(function_of(vec![call_at(
            0x2000,
            load_of(TargetExpr::Reg(BASE_REG)),
        )])),
        None,
    ];
    let sites = scan_functions(&funcs, BASE_REG);
    assert_eq!(sites.len(), 1);
    assert_eq!(sites[0], CallSite { address: 0x2000, offset: 0 });
}

#[test]
fn scan_functions_with_no_matching_calls_yields_empty_list() {
    let funcs = vec![
        Some(function_of(vec![
            Instruction {
                address: 0x3000,
                kind: InstrKind::NonCall,
            },
            call_at(0x3004, TargetExpr::Constant(0x5000)),
        ])),
        None,
    ];
    let sites = scan_functions(&funcs, BASE_REG);
    assert!(sites.is_empty());
}

#[test]
fn scan_walks_every_basic_block_in_order() {
    let func = FunctionCode {
        blocks: vec![
            BasicBlock {
                instructions: vec![call_at(0x4000, load_of(TargetExpr::Reg(BASE_REG)))],
            },
            BasicBlock { instructions: vec![] },
            BasicBlock {
                instructions: vec![call_at(
                    0x4010,
                    load_of(TargetExpr::Sum(
                        Box::new(TargetExpr::Reg(BASE_REG)),
                        Box::new(TargetExpr::Constant(8)),
                    )),
                )],
            },
        ],
    };
    let sites = scan_function(&func, BASE_REG);
    assert_eq!(sites.len(), 2);
    assert_eq!(sites[0].address, 0x4000);
    assert_eq!(sites[1].address, 0x4010);
    assert_eq!(sites[1].offset, 8);
}
