//! Layout synthesis: after the trace session has exited, turn each call
//! site's accumulated observations into one canonical structural layout —
//! the fixed three-slot header followed by the largest observed method
//! count — with a name derived deterministically from the call site's
//! static address, so repeated runs produce the same name.

use vstd::prelude::*;

use vstd::string::StringExecFns;

use crate::controller::CallSiteRecord;
use crate::controller::Observation;
use crate::controller::RecordView;
use crate::controller::SessionState;
use crate::controller::TraceController;
use crate::controller::has_ptr;
use crate::controller::noted;
use crate::controller::record_observations;
use crate::controller::records_noted;
use crate::controller::records_view;
use crate::scanner::CallSite;

verus! {

/// The larger of two counts.
pub open spec fn max_u64(a: u64, b: u64) -> u64 {
    if a >= b {
        a
    } else {
        b
    }
}

/// The largest method count among the observations; zero where there are
/// none.
pub open spec fn max_count(obs: Seq<Observation>) -> u64
    decreases obs.len(),
{
    if obs.len() == 0 {
        0
    } else {
        max_u64(obs[0].method_count, max_count(obs.drop_first()))
    }
}

/// The largest method count bounds every observation, and is attained by
/// one of them whenever any exist.
proof fn lemma_max_count_props(obs: Seq<Observation>)
    ensures
        forall|j: int| 0 <= j < obs.len() ==> (#[trigger] obs[j]).method_count <= max_count(obs),
        obs.len() > 0 ==> exists|j: int|
            0 <= j < obs.len() && (#[trigger] obs[j]).method_count == max_count(obs),
    decreases obs.len(),
{
    if obs.len() == 0 {
    } else {
        lemma_max_count_props(obs.drop_first());
        assert(forall|j: int| 0 <= j < obs.drop_first().len() ==> obs.drop_first()[j] == obs[j + 1]);
        assert forall|j: int| 0 <= j < obs.len() implies (#[trigger] obs[j]).method_count
            <= max_count(obs) by {
            if j > 0 {
                assert(obs.drop_first()[j - 1] == obs[j]);
                assert(obs.drop_first()[j - 1].method_count <= max_count(obs.drop_first()));
            }
        }
        if obs.drop_first().len() > 0 && max_count(obs.drop_first()) > obs[0].method_count {
            let j = choose|j: int|
                0 <= j < obs.drop_first().len() && (#[trigger] obs.drop_first()[j]).method_count
                    == max_count(obs.drop_first());
            assert(obs[j + 1].method_count == max_count(obs));
        } else {
            assert(obs[0].method_count == max_count(obs));
        }
    }
}

/// Monotonicity of the synthesized count (law): one more sighting never
/// shrinks a call site's largest method count. A duplicate pointer leaves
/// it unchanged; a fresh pointer raises it to at least the new count.
pub proof fn lemma_max_count_monotonic(obs: Seq<Observation>, p: u64, c: u64, r: Option<u64>)
    ensures
        max_count(noted(obs, p, c, r)) == if has_ptr(obs, p) {
            max_count(obs)
        } else {
            max_u64(max_count(obs), c)
        },
        max_count(noted(obs, p, c, r)) >= max_count(obs),
    decreases obs.len(),
{
    let result = noted(obs, p, c, r);
    if obs.len() == 0 {
        assert(!has_ptr(obs, p));
        assert(result.drop_first() =~= Seq::<Observation>::empty());
        assert(max_count(Seq::<Observation>::empty()) == 0);
        assert(result[0].method_count == c);
        assert(max_count(result) == max_u64(c, 0));
    } else if obs[0].vtable_ptr == p {
        assert(has_ptr(obs, p)) by {
            assert(obs[0].vtable_ptr == p);
        }
        assert(result[0].method_count == obs[0].method_count);
        assert(result.drop_first() =~= obs.drop_first());
    } else {
        lemma_max_count_monotonic(obs.drop_first(), p, c, r);
        assert(result[0] == obs[0]);
        assert(result.drop_first() =~= noted(obs.drop_first(), p, c, r));
        assert(max_count(result) == max_u64(
            obs[0].method_count,
            max_count(noted(obs.drop_first(), p, c, r)),
        ));
        assert(max_count(obs) == max_u64(obs[0].method_count, max_count(obs.drop_first())));
        assert(has_ptr(obs, p) == has_ptr(obs.drop_first(), p)) by {
            assert(forall|j: int|
                0 <= j < obs.drop_first().len() ==> obs.drop_first()[j] == obs[j + 1]);
            if has_ptr(obs, p) {
                let j = choose|j: int| 0 <= j < obs.len() && obs[j].vtable_ptr == p;
                assert(obs.drop_first()[j - 1].vtable_ptr == p);
            }
            if has_ptr(obs.drop_first(), p) {
                let j = choose|j: int|
                    0 <= j < obs.drop_first().len() && obs.drop_first()[j].vtable_ptr == p;
                assert(obs[j + 1].vtable_ptr == p);
            }
        }
    }
}

/// Monotonicity across the session (law): one more sighting recorded into
/// the accumulator never shrinks the largest method count of any call
/// site, so the layout each site would synthesize only grows as
/// observations arrive.
pub proof fn lemma_session_count_monotonic(
    rv: Seq<RecordView>,
    site: CallSite,
    p: u64,
    c: u64,
    r: Option<u64>,
    a: u64,
)
    ensures
        max_count(record_observations(records_noted(rv, site, p, c, r), a)) >= max_count(
            record_observations(rv, a),
        ),
    decreases rv.len(),
{
    let result = records_noted(rv, site, p, c, r);
    if rv.len() == 0 {
        assert(record_observations(rv, a) =~= Seq::<Observation>::empty());
        assert(result[0].site == site);
        assert(result.drop_first() =~= Seq::<RecordView>::empty());
    } else if rv[0].site.address == site.address {
        assert(result[0].site == rv[0].site);
        assert(result.drop_first() =~= rv.drop_first());
        if rv[0].site.address == a {
            lemma_max_count_monotonic(rv[0].observations, p, c, r);
        }
    } else {
        assert(result[0] == rv[0]);
        assert(result.drop_first() =~= records_noted(rv.drop_first(), site, p, c, r));
        if rv[0].site.address != a {
            lemma_session_count_monotonic(rv.drop_first(), site, p, c, r, a);
        }
    }
}

/// Returns the largest method count among a record's observations; zero
/// where nothing was observed.
pub fn max_method_count(rec: &CallSiteRecord) -> (r: u64)
    ensures
        r == max_count(rec.observations@),
        forall|j: int|
            0 <= j < rec.observations@.len() ==> (#[trigger] rec.observations@[j]).method_count
                <= r,
        rec.observations@.len() > 0 ==> exists|j: int|
            0 <= j < rec.observations@.len() && (#[trigger] rec.observations@[j]).method_count
                == r,
{
    let n = rec.observations.len();
    let mut best: u64 = 0;
    let mut i: usize = 0;
    proof {
        assert(rec.observations@.subrange(0, n as int) =~= rec.observations@);
    }
    while i < n
        invariant
            i <= n,
            n == rec.observations@.len(),
            max_count(rec.observations@) == max_u64(
                best,
                max_count(rec.observations@.subrange(i as int, n as int)),
            ),
        decreases n - i,
    {
        proof {
            assert(rec.observations@.subrange(i as int, n as int)[0]
                == rec.observations@[i as int]);
            assert(rec.observations@.subrange(i as int, n as int).drop_first()
                =~= rec.observations@.subrange(i + 1, n as int));
        }
        let c = rec.observations[i].method_count;
        if c > best {
            best = c;
        }
        i = i + 1;
    }
    proof {
        assert(rec.observations@.subrange(n as int, n as int).len() == 0);
        lemma_max_count_props(rec.observations@);
    }
    best
}

/// One synthesized layout: the call site's static address and the largest
/// method count observed there. The persistent structural type is the
/// fixed three-slot header followed by this many function-pointer slots.
#[derive(Clone, Copy, PartialEq, Eq, Structural, Debug)]
pub struct VtableLayout {
    pub site_address: u64,
    pub method_count: u64,
}

/// The layouts synthesis derives from the accumulator: one per record
/// whose largest observed method count is positive, in record order. A
/// site where nothing was learned (no observations, or only zero counts)
/// yields no layout.
pub open spec fn synth_spec(rv: Seq<RecordView>) -> Seq<VtableLayout>
    decreases rv.len(),
{
    if rv.len() == 0 {
        Seq::empty()
    } else {
        let rest = synth_spec(rv.drop_first());
        if max_count(rv[0].observations) > 0 {
            seq![
                VtableLayout {
                    site_address: rv[0].site.address,
                    method_count: max_count(rv[0].observations),
                },
            ] + rest
        } else {
            rest
        }
    }
}

/// Consumes the accumulator's final state and computes the canonical
/// layout of every call site where something was learned.
pub fn synthesize(records: &Vec<CallSiteRecord>) -> (layouts: Vec<VtableLayout>)
    ensures
        layouts@ == synth_spec(records_view(records@)),
{
    let ghost rv = records_view(records@);
    let mut layouts: Vec<VtableLayout> = Vec::new();
    let n = records.len();
    let mut i: usize = 0;
    proof {
        assert(rv.subrange(0, n as int) =~= rv);
        assert(rv.len() == n);
    }
    while i < n
        invariant
            i <= n,
            n == records@.len(),
            rv == records_view(records@),
            rv.len() == n,
            synth_spec(rv) == layouts@ + synth_spec(rv.subrange(i as int, n as int)),
        decreases n - i,
    {
        proof {
            assert(rv.subrange(i as int, n as int)[0] == rv[i as int]);
            assert(rv.subrange(i as int, n as int).drop_first() =~= rv.subrange(i + 1, n as int));
            assert(rv[i as int] == records@[i as int]@);
        }
        let rec = &records[i];
        let m = max_method_count(rec);
        if m > 0 {
            let layout = VtableLayout { site_address: rec.site.address, method_count: m };
            let ghost pre = layouts@;
            layouts.push(layout);
            proof {
                assert(pre + (seq![layout] + synth_spec(rv.subrange(i + 1, n as int))) =~= layouts@
                    + synth_spec(rv.subrange(i + 1, n as int)));
            }
        }
        i = i + 1;
    }
    proof {
        assert(rv.subrange(n as int, n as int).len() == 0);
    }
    layouts
}

/// Synthesizes the layouts of a finished trace session. Synthesis must not
/// run concurrently with active tracing — the persistent type store needs
/// exclusive access — so it is only available once the session has reached
/// `Exited`; the caller must also have released any live image handle tied
/// to the session before persisting the result.
pub fn synthesize_session(controller: &TraceController) -> (layouts: Vec<VtableLayout>)
    requires
        controller.state == SessionState::Exited,
    ensures
        layouts@ == synth_spec(records_view(controller.records@)),
{
    synthesize(&controller.records)
}

/// The characters of one hexadecimal (or decimal) digit.
pub open spec fn digit_chars(d: nat) -> Seq<char> {
    if d == 0 {
        "0"@
    } else if d == 1 {
        "1"@
    } else if d == 2 {
        "2"@
    } else if d == 3 {
        "3"@
    } else if d == 4 {
        "4"@
    } else if d == 5 {
        "5"@
    } else if d == 6 {
        "6"@
    } else if d == 7 {
        "7"@
    } else if d == 8 {
        "8"@
    } else if d == 9 {
        "9"@
    } else if d == 10 {
        "a"@
    } else if d == 11 {
        "b"@
    } else if d == 12 {
        "c"@
    } else if d == 13 {
        "d"@
    } else if d == 14 {
        "e"@
    } else {
        "f"@
    }
}

/// The lower-case hexadecimal rendering of `n`, without a prefix and
/// without leading zeroes.
pub open spec fn hex_chars(n: nat) -> Seq<char>
    decreases n,
{
    if n < 16 {
        digit_chars(n)
    } else {
        hex_chars(n / 16) + digit_chars(n % 16)
    }
}

/// The decimal rendering of `n` without leading zeroes.
pub open spec fn dec_chars(n: nat) -> Seq<char>
    decreases n,
{
    if n < 10 {
        digit_chars(n)
    } else {
        dec_chars(n / 10) + digit_chars(n % 10)
    }
}

fn append_digit(s: &mut String, d: u64)
    requires
        d < 16,
    ensures
        final(s)@ == old(s)@ + digit_chars(d as nat),
{
    if d == 0 {
        s.append("0");
    } else if d == 1 {
        s.append("1");
    } else if d == 2 {
        s.append("2");
    } else if d == 3 {
        s.append("3");
    } else if d == 4 {
        s.append("4");
    } else if d == 5 {
        s.append("5");
    } else if d == 6 {
        s.append("6");
    } else if d == 7 {
        s.append("7");
    } else if d == 8 {
        s.append("8");
    } else if d == 9 {
        s.append("9");
    } else if d == 10 {
        s.append("a");
    } else if d == 11 {
        s.append("b");
    } else if d == 12 {
        s.append("c");
    } else if d == 13 {
        s.append("d");
    } else if d == 14 {
        s.append("e");
    } else {
        s.append("f");
    }
}

fn append_hex(s: &mut String, n: u64)
    ensures
        final(s)@ == old(s)@ + hex_chars(n as nat),
    decreases n,
{
    if n < 16 {
        append_digit(s, n);
    } else {
        append_hex(s, n / 16);
        append_digit(s, n % 16);
    }
}

fn append_dec(s: &mut String, n: u64)
    ensures
        final(s)@ == old(s)@ + dec_chars(n as nat),
    decreases n,
{
    if n < 10 {
        append_digit(s, n);
    } else {
        append_dec(s, n / 10);
        append_digit(s, n % 10);
    }
}

/// The deterministic name of the layout synthesized for a call site.
pub open spec fn layout_name_chars(site_address: u64) -> Seq<char> {
    "VTable_"@ + hex_chars(site_address as nat)
}

/// Derives the layout's name from the call site's static address, so that
/// repeated runs against the same site produce the same name.
pub fn layout_name(site_address: u64) -> (r: String)
    ensures
        r@ == layout_name_chars(site_address),
{
    let mut s = String::new();
    s.append("VTable_");
    append_hex(&mut s, site_address);
    s
}

/// One synthesized method-pointer line of the type definition.
pub open spec fn method_line_chars(i: nat) -> Seq<char> {
    "    void* method"@ + dec_chars(i) + ";\n"@
}

/// The method-pointer lines of a layout with `n` methods, numbered from 1.
pub open spec fn method_lines_chars(n: nat) -> Seq<char>
    decreases n,
{
    if n == 0 {
        Seq::empty()
    } else {
        method_lines_chars((n - 1) as nat) + method_line_chars(n)
    }
}

/// The full textual type definition registered for one layout: the fixed
/// three-slot header, then one function-pointer slot per method.
pub open spec fn type_def_chars(site_address: u64, method_count: u64) -> Seq<char> {
    "struct VTable_"@ + hex_chars(site_address as nat)
        + " {\n    void* drop;\n    uint64_t size;\n    uint64_t align;\n"@ + method_lines_chars(
        method_count as nat,
    ) + "};\n"@
}

/// Renders the structural type definition for a vtable layout at a call
/// site, deterministically from the site address and method count.
pub fn generate_vtable_type_def(call_site_addr: u64, method_count: u64) -> (r: String)
    ensures
        r@ == type_def_chars(call_site_addr, method_count),
{
    let mut s = String::new();
    s.append("struct VTable_");
    append_hex(&mut s, call_site_addr);
    s.append(" {\n    void* drop;\n    uint64_t size;\n    uint64_t align;\n");
    let ghost head = s@;
    let mut i: u64 = 0;
    while i < method_count
        invariant
            i <= method_count,
            s@ == head + method_lines_chars(i as nat),
        decreases method_count - i,
    {
        s.append("    void* method");
        append_dec(&mut s, i + 1);
        s.append(";\n");
        proof {
            assert(method_lines_chars((i + 1) as nat) == method_lines_chars(i as nat)
                + method_line_chars((i + 1) as nat));
            assert(s@ =~= head + method_lines_chars((i + 1) as nat));
        }
        i = i + 1;
    }
    s.append("};\n");
    proof {
        assert(s@ =~= type_def_chars(call_site_addr, method_count));
    }
    s
}

/// The rendering of one observation inside an annotation: the vtable
/// pointer in hexadecimal and its method count.
pub open spec fn observation_chars(o: Observation) -> Seq<char> {
    "0x"@ + hex_chars(o.vtable_ptr as nat) + "("@ + dec_chars(o.method_count as nat)
        + " methods)"@
}

/// The comma-separated renderings of all observations, in discovery order.
pub open spec fn observation_list_chars(obs: Seq<Observation>) -> Seq<char>
    decreases obs.len(),
{
    if obs.len() == 0 {
        Seq::empty()
    } else if obs.len() == 1 {
        observation_chars(obs[0])
    } else {
        observation_chars(obs[0]) + ", "@ + observation_list_chars(obs.drop_first())
    }
}

/// The free-text annotation attached at a call site: every distinct
/// (vtable pointer, method count) pair observed there.
pub open spec fn annotation_chars(obs: Seq<Observation>) -> Seq<char> {
    "VTables: "@ + observation_list_chars(obs)
}

proof fn lemma_observation_list_push(obs: Seq<Observation>, o: Observation)
    ensures
        observation_list_chars(obs.push(o)) == if obs.len() == 0 {
            observation_chars(o)
        } else {
            observation_list_chars(obs) + ", "@ + observation_chars(o)
        },
    decreases obs.len(),
{
    if obs.len() == 0 {
        assert(obs.push(o)[0] == o);
        assert(obs.push(o).len() == 1);
    } else {
        assert(obs.push(o)[0] == obs[0]);
        assert(obs.push(o).drop_first() =~= obs.drop_first().push(o));
        lemma_observation_list_push(obs.drop_first(), o);
        if obs.len() == 1 {
            assert(observation_list_chars(obs) =~= observation_chars(obs[0]));
        }
    }
}

/// Renders the annotation summarizing a record's observations.
pub fn annotation_text(rec: &CallSiteRecord) -> (r: String)
    ensures
        r@ == annotation_chars(rec.observations@),
{
    let mut s = String::new();
    s.append("VTables: ");
    let ghost head = s@;
    let n = rec.observations.len();
    let mut i: usize = 0;
    while i < n
        invariant
            i <= n,
            n == rec.observations@.len(),
            s@ == head + observation_list_chars(rec.observations@.subrange(0, i as int)),
        decreases n - i,
    {
        if i > 0 {
            s.append(", ");
        }
        let o = rec.observations[i];
        s.append("0x");
        append_hex(&mut s, o.vtable_ptr);
        s.append("(");
        append_dec(&mut s, o.method_count);
        s.append(" methods)");
        proof {
            let prefix = rec.observations@.subrange(0, i as int);
            assert(rec.observations@.subrange(0, i + 1) =~= prefix.push(o));
            lemma_observation_list_push(prefix, o);
            assert(s@ =~= head + observation_list_chars(rec.observations@.subrange(0, i + 1)));
        }
        i = i + 1;
    }
    proof {
        assert(rec.observations@.subrange(0, n as int) =~= rec.observations@);
    }
    s
}

} // verus!
