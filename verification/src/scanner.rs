//! Static call-site discovery: walk every function's lifted instruction
//! stream and collect the calls whose target is a memory load off a fixed
//! base register, optionally plus a literal constant.

use vstd::prelude::*;

verus! {

/// The lifted intermediate-language forms a function graph can take. Kept
/// for callers that select which lift level an instruction-stream provider
/// should hand over; the scanner itself works on the low-level form.
#[derive(Clone, Copy, PartialEq, Eq, Structural, Debug)]
pub enum BNFunctionGraphType {
    InvalidILViewType,
    NormalFunctionGraph,
    LowLevelILFunctionGraph,
    LiftedILFunctionGraph,
    LowLevelILSSAFormFunctionGraph,
    MediumLevelILFunctionGraph,
    MediumLevelILSSAFormFunctionGraph,
    MappedMediumLevelILFunctionGraph,
    MappedMediumLevelILSSAFormFunctionGraph,
    HighLevelILFunctionGraph,
    HighLevelILSSAFormFunctionGraph,
    HighLevelLanguageRepresentationFunctionGraph,
}

/// The shape of a call-target expression, as the lifter reports it.
/// Registers are identified by an architecture register number. Shapes the
/// scanner does not inspect are collapsed into `Opaque`.
pub enum TargetExpr {
    Reg(u32),
    Constant(i64),
    Sum(Box<TargetExpr>, Box<TargetExpr>),
    Load(Box<TargetExpr>),
    Opaque,
}

/// What one lifted instruction is to the scanner: a call with its target
/// expression, or anything else.
pub enum InstrKind {
    Call(TargetExpr),
    NonCall,
}

/// One lifted instruction and the address it was lifted from.
pub struct Instruction {
    pub address: u64,
    pub kind: InstrKind,
}

/// One basic block of a lifted function.
pub struct BasicBlock {
    pub instructions: Vec<Instruction>,
}

/// The lifted body of one function.
pub struct FunctionCode {
    pub blocks: Vec<BasicBlock>,
}

/// A discovered indirect call site: the static address of the call and the
/// constant offset added to the base register before the load. Immutable
/// once discovered; identity is the static address.
#[derive(Clone, Copy, PartialEq, Eq, Structural, Debug)]
pub struct CallSite {
    pub address: u64,
    pub offset: i64,
}

/// The constant offset recovered from the address expression of a matched
/// load. Pattern A: the bare base register, offset 0. Pattern B: the base
/// register plus a literal constant (left-associated, the right-hand side a
/// literal, not a computed value). Every other shape matches nothing.
pub open spec fn addr_expr_offset(e: TargetExpr, base_reg: u32) -> Option<i64> {
    match e {
        TargetExpr::Reg(r) => if r == base_reg {
            Some(0i64)
        } else {
            None
        },
        TargetExpr::Sum(l, rhs) => match (*l, *rhs) {
            (TargetExpr::Reg(r), TargetExpr::Constant(c)) => if r == base_reg {
                Some(c)
            } else {
                None
            },
            _ => None,
        },
        _ => None,
    }
}

/// The offset a call target yields: the target must be a memory load whose
/// address expression matches pattern A or B.
pub open spec fn call_target_offset(t: TargetExpr, base_reg: u32) -> Option<i64> {
    match t {
        TargetExpr::Load(inner) => addr_expr_offset(*inner, base_reg),
        _ => None,
    }
}

/// The call site one instruction yields, if it is a call whose target
/// matches pattern A or B.
pub open spec fn instr_call_site(i: Instruction, base_reg: u32) -> Option<CallSite> {
    match i.kind {
        InstrKind::Call(t) => match call_target_offset(t, base_reg) {
            Some(off) => Some(CallSite { address: i.address, offset: off }),
            None => None,
        },
        InstrKind::NonCall => None,
    }
}

/// Every call site an instruction sequence yields, in order.
pub open spec fn sites_in_instrs(s: Seq<Instruction>, base_reg: u32) -> Seq<CallSite>
    decreases s.len(),
{
    if s.len() == 0 {
        Seq::empty()
    } else {
        match instr_call_site(s[0], base_reg) {
            Some(cs) => seq![cs] + sites_in_instrs(s.drop_first(), base_reg),
            None => sites_in_instrs(s.drop_first(), base_reg),
        }
    }
}

/// Every call site a sequence of basic blocks yields, in order.
pub open spec fn sites_in_blocks(s: Seq<BasicBlock>, base_reg: u32) -> Seq<CallSite>
    decreases s.len(),
{
    if s.len() == 0 {
        Seq::empty()
    } else {
        sites_in_instrs(s[0].instructions@, base_reg) + sites_in_blocks(s.drop_first(), base_reg)
    }
}

/// Every call site a function set yields, in order. A function whose lifted
/// body is unavailable (`None`) is skipped silently.
pub open spec fn sites_in_functions(s: Seq<Option<FunctionCode>>, base_reg: u32) -> Seq<CallSite>
    decreases s.len(),
{
    if s.len() == 0 {
        Seq::empty()
    } else {
        (match s[0] {
            Some(f) => sites_in_blocks(f.blocks@, base_reg),
            None => Seq::empty(),
        }) + sites_in_functions(s.drop_first(), base_reg)
    }
}

proof fn lemma_concat_contains<A>(a: Seq<A>, b: Seq<A>, x: A)
    ensures
        (a + b).contains(x) <==> a.contains(x) || b.contains(x),
{
    if a.contains(x) {
        let i = choose|i: int| 0 <= i < a.len() && a[i] == x;
        assert((a + b)[i] == x);
    }
    if b.contains(x) {
        let i = choose|i: int| 0 <= i < b.len() && b[i] == x;
        assert((a + b)[a.len() + i] == x);
    }
    if (a + b).contains(x) {
        let i = choose|i: int| 0 <= i < (a + b).len() && (a + b)[i] == x;
        if i < a.len() {
            assert(a[i] == x);
        } else {
            assert(b[i - a.len()] == x);
        }
    }
}

/// At the instruction level, the scan is exact: its result contains a call
/// site precisely when some instruction of the sequence is a call whose
/// target matches pattern A or B with that address and offset.
pub proof fn lemma_sites_in_instrs_exact(s: Seq<Instruction>, base_reg: u32, cs: CallSite)
    ensures
        sites_in_instrs(s, base_reg).contains(cs) <==> exists|i: int|
            0 <= i < s.len() && instr_call_site(#[trigger] s[i], base_reg) == Some(cs),
    decreases s.len(),
{
    if s.len() == 0 {
    } else {
        lemma_sites_in_instrs_exact(s.drop_first(), base_reg, cs);
        let rest = sites_in_instrs(s.drop_first(), base_reg);
        match instr_call_site(s[0], base_reg) {
            Some(c0) => {
                lemma_concat_contains(seq![c0], rest, cs);
                assert(seq![c0].contains(cs) <==> cs == c0) by {
                    if cs == c0 {
                        assert(seq![c0][0] == cs);
                    }
                }
            },
            None => {
            },
        }
        if rest.contains(cs) {
            let i = choose|i: int|
                0 <= i < s.drop_first().len() && instr_call_site(
                    #[trigger] s.drop_first()[i],
                    base_reg,
                ) == Some(cs);
            assert(s.drop_first()[i] == s[i + 1]);
        }
        if exists|i: int| 0 <= i < s.len() && instr_call_site(#[trigger] s[i], base_reg) == Some(
            cs,
        ) {
            let i = choose|i: int|
                0 <= i < s.len() && instr_call_site(#[trigger] s[i], base_reg) == Some(cs);
            if i > 0 {
                assert(s.drop_first()[i - 1] == s[i]);
                assert(rest.contains(cs));
            }
        }
    }
}

/// At the basic-block level, the scan is exact: its result contains a call
/// site precisely when the instruction sequence of some block yields it.
pub proof fn lemma_sites_in_blocks_exact(s: Seq<BasicBlock>, base_reg: u32, cs: CallSite)
    ensures
        sites_in_blocks(s, base_reg).contains(cs) <==> exists|b: int|
            0 <= b < s.len() && sites_in_instrs(
                (#[trigger] s[b]).instructions@,
                base_reg,
            ).contains(cs),
    decreases s.len(),
{
    if s.len() == 0 {
    } else {
        lemma_sites_in_blocks_exact(s.drop_first(), base_reg, cs);
        let head = sites_in_instrs(s[0].instructions@, base_reg);
        let rest = sites_in_blocks(s.drop_first(), base_reg);
        lemma_concat_contains(head, rest, cs);
        if rest.contains(cs) {
            let b = choose|b: int|
                0 <= b < s.drop_first().len() && sites_in_instrs(
                    (#[trigger] s.drop_first()[b]).instructions@,
                    base_reg,
                ).contains(cs);
            assert(s.drop_first()[b] == s[b + 1]);
        }
        if exists|b: int|
            0 <= b < s.len() && sites_in_instrs(
                (#[trigger] s[b]).instructions@,
                base_reg,
            ).contains(cs) {
            let b = choose|b: int|
                0 <= b < s.len() && sites_in_instrs(
                    (#[trigger] s[b]).instructions@,
                    base_reg,
                ).contains(cs);
            if b > 0 {
                assert(s.drop_first()[b - 1] == s[b]);
                assert(rest.contains(cs));
            }
        }
    }
}

/// At the function level, the scan is exact: its result contains a call
/// site precisely when some function with an available lifted body yields
/// it. Functions without a lifted body contribute nothing.
pub proof fn lemma_sites_in_functions_exact(
    s: Seq<Option<FunctionCode>>,
    base_reg: u32,
    cs: CallSite,
)
    ensures
        sites_in_functions(s, base_reg).contains(cs) <==> exists|f: int|
            0 <= f < s.len() && (#[trigger] s[f]) is Some && sites_in_blocks(
                s[f]->0.blocks@,
                base_reg,
            ).contains(cs),
    decreases s.len(),
{
    if s.len() == 0 {
    } else {
        lemma_sites_in_functions_exact(s.drop_first(), base_reg, cs);
        let head = match s[0] {
            Some(f) => sites_in_blocks(f.blocks@, base_reg),
            None => Seq::empty(),
        };
        let rest = sites_in_functions(s.drop_first(), base_reg);
        lemma_concat_contains(head, rest, cs);
        if rest.contains(cs) {
            let f = choose|f: int|
                0 <= f < s.drop_first().len() && (#[trigger] s.drop_first()[f]) is Some
                    && sites_in_blocks(s.drop_first()[f]->0.blocks@, base_reg).contains(cs);
            assert(s.drop_first()[f] == s[f + 1]);
        }
        if exists|f: int|
            0 <= f < s.len() && (#[trigger] s[f]) is Some && sites_in_blocks(
                s[f]->0.blocks@,
                base_reg,
            ).contains(cs) {
            let f = choose|f: int|
                0 <= f < s.len() && (#[trigger] s[f]) is Some && sites_in_blocks(
                    s[f]->0.blocks@,
                    base_reg,
                ).contains(cs);
            if f > 0 {
                assert(s.drop_first()[f - 1] == s[f]);
                assert(rest.contains(cs));
            }
        }
    }
}

/// Whether the instruction at position (`f`, `b`, `i`) of the function set
/// is a call whose target matches pattern A or B, recovering exactly the
/// call site `cs`.
pub open spec fn call_instr_matches(
    funcs: Seq<Option<FunctionCode>>,
    base_reg: u32,
    cs: CallSite,
    f: int,
    b: int,
    i: int,
) -> bool {
    &&& 0 <= f < funcs.len()
    &&& funcs[f] is Some
    &&& 0 <= b < funcs[f]->0.blocks@.len()
    &&& 0 <= i < funcs[f]->0.blocks@[b].instructions@.len()
    &&& instr_call_site(funcs[f]->0.blocks@[b].instructions@[i], base_reg) == Some(cs)
}

/// Exact recovery (law): for every call whose target matches pattern A or
/// B, the scanner's result holds the exact (address, offset) pair, and the
/// result holds nothing else — a call with any other target shape, or a
/// function without a lifted body, contributes no call site.
pub proof fn lemma_scanner_exact(funcs: Seq<Option<FunctionCode>>, base_reg: u32, cs: CallSite)
    ensures
        sites_in_functions(funcs, base_reg).contains(cs) <==> exists|f: int, b: int, i: int|
            #[trigger] call_instr_matches(funcs, base_reg, cs, f, b, i),
{
    lemma_sites_in_functions_exact(funcs, base_reg, cs);
    if sites_in_functions(funcs, base_reg).contains(cs) {
        let f = choose|f: int|
            0 <= f < funcs.len() && (#[trigger] funcs[f]) is Some && sites_in_blocks(
                funcs[f]->0.blocks@,
                base_reg,
            ).contains(cs);
        lemma_sites_in_blocks_exact(funcs[f]->0.blocks@, base_reg, cs);
        let b = choose|b: int|
            0 <= b < funcs[f]->0.blocks@.len() && sites_in_instrs(
                (#[trigger] funcs[f]->0.blocks@[b]).instructions@,
                base_reg,
            ).contains(cs);
        lemma_sites_in_instrs_exact(funcs[f]->0.blocks@[b].instructions@, base_reg, cs);
        let i = choose|i: int|
            0 <= i < funcs[f]->0.blocks@[b].instructions@.len() && instr_call_site(
                #[trigger] funcs[f]->0.blocks@[b].instructions@[i],
                base_reg,
            ) == Some(cs);
        assert(call_instr_matches(funcs, base_reg, cs, f, b, i));
    }
    if exists|f: int, b: int, i: int| #[trigger] call_instr_matches(funcs, base_reg, cs, f, b, i) {
        let (f, b, i) = choose|f: int, b: int, i: int|
            #[trigger] call_instr_matches(funcs, base_reg, cs, f, b, i);
        lemma_sites_in_instrs_exact(funcs[f]->0.blocks@[b].instructions@, base_reg, cs);
        assert(sites_in_instrs(funcs[f]->0.blocks@[b].instructions@, base_reg).contains(cs));
        lemma_sites_in_blocks_exact(funcs[f]->0.blocks@, base_reg, cs);
        assert(sites_in_blocks(funcs[f]->0.blocks@, base_reg).contains(cs));
    }
}

/// Classifies one call-target expression against pattern A (a load of the
/// bare base register) and pattern B (a load of the base register plus a
/// literal constant), returning the recovered constant offset.
pub fn match_call_target(t: &TargetExpr, base_reg: u32) -> (r: Option<i64>)
    ensures
        r == call_target_offset(*t, base_reg),
{
    match t {
        TargetExpr::Load(inner) => match &**inner {
            TargetExpr::Reg(r) => if *r == base_reg {
                Some(0i64)
            } else {
                None
            },
            TargetExpr::Sum(l, rhs) => match (&**l, &**rhs) {
                (TargetExpr::Reg(r), TargetExpr::Constant(c)) => if *r == base_reg {
                    Some(*c)
                } else {
                    None
                },
                _ => None,
            },
            _ => None,
        },
        _ => None,
    }
}

/// Scans one lifted function and returns every call site it yields, in
/// block and instruction order.
pub fn scan_function(func: &FunctionCode, base_reg: u32) -> (sites: Vec<CallSite>)
    ensures
        sites@ == sites_in_blocks(func.blocks@, base_reg),
{
    let mut sites: Vec<CallSite> = Vec::new();
    let nb = func.blocks.len();
    let mut bi: usize = 0;
    proof {
        assert(func.blocks@.subrange(0, nb as int) =~= func.blocks@);
        assert(sites_in_blocks(func.blocks@, base_reg) =~= sites@ + sites_in_blocks(
            func.blocks@.subrange(0, nb as int),
            base_reg,
        ));
    }
    while bi < nb
        invariant
            bi <= nb,
            nb == func.blocks@.len(),
            sites_in_blocks(func.blocks@, base_reg) == sites@ + sites_in_blocks(
                func.blocks@.subrange(bi as int, nb as int),
                base_reg,
            ),
        decreases nb - bi,
    {
        proof {
            assert(func.blocks@.subrange(bi as int, nb as int)[0] == func.blocks@[bi as int]);
            assert(func.blocks@.subrange(bi as int, nb as int).drop_first() =~= func.blocks@
                .subrange(bi + 1, nb as int));
        }
        let block = &func.blocks[bi];
        let ni = block.instructions.len();
        let mut ii: usize = 0;
        proof {
            assert(block.instructions@.subrange(0, ni as int) =~= block.instructions@);
        }
        while ii < ni
            invariant
                ii <= ni,
                ni == block.instructions@.len(),
                *block == func.blocks@[bi as int],
                bi < nb,
                nb == func.blocks@.len(),
                sites_in_blocks(func.blocks@, base_reg) == sites@ + sites_in_instrs(
                    block.instructions@.subrange(ii as int, ni as int),
                    base_reg,
                ) + sites_in_blocks(func.blocks@.subrange(bi + 1, nb as int), base_reg),
            decreases ni - ii,
        {
            proof {
                assert(block.instructions@.subrange(ii as int, ni as int)[0]
                    == block.instructions@[ii as int]);
                assert(block.instructions@.subrange(ii as int, ni as int).drop_first()
                    =~= block.instructions@.subrange(ii + 1, ni as int));
            }
            let instr = &block.instructions[ii];
            match &instr.kind {
                InstrKind::Call(t) => {
                    match match_call_target(t, base_reg) {
                        Some(off) => {
                            let cs = CallSite { address: instr.address, offset: off };
                            proof {
                                assert(instr_call_site(block.instructions@[ii as int], base_reg)
                                    == Some(cs));
                            }
                            let ghost pre = sites@;
                            sites.push(cs);
                            proof {
                                assert(pre + sites_in_instrs(
                                    block.instructions@.subrange(ii as int, ni as int),
                                    base_reg,
                                ) =~= sites@ + sites_in_instrs(
                                    block.instructions@.subrange(ii + 1, ni as int),
                                    base_reg,
                                ));
                            }
                        },
                        None => {
                        },
                    }
                },
                InstrKind::NonCall => {
                },
            }
            ii = ii + 1;
        }
        proof {
            assert(block.instructions@.subrange(ni as int, ni as int).len() == 0);
        }
        bi = bi + 1;
    }
    proof {
        assert(func.blocks@.subrange(nb as int, nb as int).len() == 0);
    }
    sites
}

/// Scans every function of a set and returns every discovered call site. A
/// function whose lifted body is unavailable is skipped silently; it is not
/// an error. Within the result, sites appear in function, block and
/// instruction order.
pub fn scan_functions(funcs: &Vec<Option<FunctionCode>>, base_reg: u32) -> (sites: Vec<CallSite>)
    ensures
        sites@ == sites_in_functions(funcs@, base_reg),
{
    let mut sites: Vec<CallSite> = Vec::new();
    let nf = funcs.len();
    let mut fi: usize = 0;
    proof {
        assert(funcs@.subrange(0, nf as int) =~= funcs@);
        assert(sites_in_functions(funcs@, base_reg) =~= sites@ + sites_in_functions(
            funcs@.subrange(0, nf as int),
            base_reg,
        ));
    }
    while fi < nf
        invariant
            fi <= nf,
            nf == funcs@.len(),
            sites_in_functions(funcs@, base_reg) == sites@ + sites_in_functions(
                funcs@.subrange(fi as int, nf as int),
                base_reg,
            ),
        decreases nf - fi,
    {
        proof {
            assert(funcs@.subrange(fi as int, nf as int)[0] == funcs@[fi as int]);
            assert(funcs@.subrange(fi as int, nf as int).drop_first() =~= funcs@.subrange(
                fi + 1,
                nf as int,
            ));
        }
        match &funcs[fi] {
            Some(f) => {
                let mut found = scan_function(f, base_reg);
                proof {
                    assert((sites@ + found@) + sites_in_functions(
                        funcs@.subrange(fi + 1, nf as int),
                        base_reg,
                    ) =~= sites@ + (found@ + sites_in_functions(
                        funcs@.subrange(fi + 1, nf as int),
                        base_reg,
                    )));
                }
                sites.append(&mut found);
            },
            None => {
                proof {
                    assert(sites@ + (Seq::<CallSite>::empty() + sites_in_functions(
                        funcs@.subrange(fi + 1, nf as int),
                        base_reg,
                    )) =~= sites@ + sites_in_functions(funcs@.subrange(fi + 1, nf as int), base_reg));
                }
            },
        }
        fi = fi + 1;
    }
    proof {
        assert(funcs@.subrange(nf as int, nf as int).len() == 0);
    }
    sites
}

} // verus!
