//! Live correlation: the per-session state machine that drives a debuggee
//! through repeated breakpoint stops, reconciles static call-site addresses
//! with runtime addresses, estimates vtable boundaries at each relevant
//! stop, and accumulates observations deduplicated per call site.
//!
//! The controller decides; the surrounding tooling performs. At every stop
//! the caller hands in plain values — the stop reason, the instruction
//! pointer, the base register's value and a snapshot of the memory window
//! at it — and performs the returned decision (install these breakpoints,
//! resume, stop looping).

use vstd::prelude::*;

use vstd::wrapping::u64_specs;

use crate::debug_types::BNDebugStopReason;
use crate::estimator::MAX_SCAN_BYTES;
use crate::estimator::estimate_method_count;
use crate::estimator::method_count_spec;
use crate::memory::MemorySnapshot;
use crate::memory::SectionTable;
use crate::memory::slot_lookup;
use crate::rebase::RebaseOffset;
use crate::rebase::bias_spec;
use crate::rebase::lemma_translate_round_trip;
use crate::rebase::translate_inverse_spec;
use crate::rebase::translate_spec;
use crate::scanner::CallSite;

verus! {

/// One distinct vtable pointer value seen at one call site, with the
/// method count estimated when it was first seen, the resolved call target
/// read at `base + offset` (if that slot was readable), and how many times
/// the same pointer has been sighted since. Never updated after creation,
/// other than the hit counter.
#[derive(Clone, Copy, PartialEq, Eq, Debug)]
pub struct Observation {
    pub vtable_ptr: u64,
    pub method_count: u64,
    pub resolved_target: Option<u64>,
    pub hits: u64,
}

/// `h + 1`, saturating at the integer's upper bound.
pub open spec fn saturating_inc(h: u64) -> u64 {
    if h == u64::MAX {
        u64::MAX
    } else {
        (h + 1) as u64
    }
}

/// How many observations in `obs` carry the vtable pointer `p`.
pub open spec fn ptr_count(obs: Seq<Observation>, p: u64) -> nat
    decreases obs.len(),
{
    if obs.len() == 0 {
        0
    } else {
        (if obs[0].vtable_ptr == p {
            1nat
        } else {
            0nat
        }) + ptr_count(obs.drop_first(), p)
    }
}

/// The accumulator invariant: no two observations of one call site carry
/// the same vtable pointer value.
pub open spec fn observations_wf(obs: Seq<Observation>) -> bool {
    forall|p: u64| #[trigger] ptr_count(obs, p) <= 1
}

/// The observation list after one sighting of vtable pointer `p` with
/// method count `c` and resolved target `r`: if `p` is already present,
/// only the hit counter of its (first) observation advances; otherwise a
/// new observation with one hit is appended.
pub open spec fn noted(obs: Seq<Observation>, p: u64, c: u64, r: Option<u64>) -> Seq<Observation>
    decreases obs.len(),
{
    if obs.len() == 0 {
        seq![Observation { vtable_ptr: p, method_count: c, resolved_target: r, hits: 1 }]
    } else if obs[0].vtable_ptr == p {
        seq![
            Observation {
                vtable_ptr: obs[0].vtable_ptr,
                method_count: obs[0].method_count,
                resolved_target: obs[0].resolved_target,
                hits: saturating_inc(obs[0].hits),
            },
        ] + obs.drop_first()
    } else {
        seq![obs[0]] + noted(obs.drop_first(), p, c, r)
    }
}

proof fn lemma_ptr_count_cons(o: Observation, rest: Seq<Observation>, q: u64)
    ensures
        ptr_count(seq![o] + rest, q) == (if o.vtable_ptr == q {
            1nat
        } else {
            0nat
        }) + ptr_count(rest, q),
{
    let s = seq![o] + rest;
    assert(s[0] == o);
    assert(s.drop_first() =~= rest);
}

/// Deduplication law for one sighting: noting a pointer leaves exactly one
/// observation with it, leaves the count of every other pointer unchanged,
/// keeps the accumulator invariant, and grows the list only when the
/// pointer was new.
pub proof fn lemma_noted_dedup(obs: Seq<Observation>, p: u64, c: u64, r: Option<u64>)
    requires
        observations_wf(obs),
    ensures
        observations_wf(noted(obs, p, c, r)),
        ptr_count(noted(obs, p, c, r), p) == 1,
        forall|q: u64| q != p ==> #[trigger] ptr_count(noted(obs, p, c, r), q) == ptr_count(
            obs,
            q,
        ),
        noted(obs, p, c, r).len() == if ptr_count(obs, p) == 0 {
            obs.len() + 1
        } else {
            obs.len()
        },
    decreases obs.len(),
{
    let result = noted(obs, p, c, r);
    if obs.len() == 0 {
        assert forall|q: u64| #[trigger] ptr_count(result, q) == (if q == p {
            1nat
        } else {
            0nat
        }) by {
            assert(result[0] == Observation {
                vtable_ptr: p,
                method_count: c,
                resolved_target: r,
                hits: 1,
            });
            assert(result.drop_first() =~= Seq::<Observation>::empty());
            assert(ptr_count(Seq::<Observation>::empty(), q) == 0);
        }
    } else if obs[0].vtable_ptr == p {
        let bumped = Observation {
            vtable_ptr: obs[0].vtable_ptr,
            method_count: obs[0].method_count,
            resolved_target: obs[0].resolved_target,
            hits: saturating_inc(obs[0].hits),
        };
        assert forall|q: u64| #[trigger] ptr_count(result, q) == ptr_count(obs, q) by {
            lemma_ptr_count_cons(bumped, obs.drop_first(), q);
            lemma_ptr_count_cons(obs[0], obs.drop_first(), q);
            assert(seq![obs[0]] + obs.drop_first() =~= obs);
        }
        assert(ptr_count(obs, p) >= 1);
    } else {
        assert forall|q: u64| #[trigger] ptr_count(obs.drop_first(), q) <= 1 by {
            lemma_ptr_count_cons(obs[0], obs.drop_first(), q);
            assert(seq![obs[0]] + obs.drop_first() =~= obs);
            assert(ptr_count(obs, q) <= 1);
        }
        lemma_noted_dedup(obs.drop_first(), p, c, r);
        assert forall|q: u64| #[trigger] ptr_count(result, q) == (if obs[0].vtable_ptr == q {
            1nat
        } else {
            0nat
        }) + ptr_count(noted(obs.drop_first(), p, c, r), q) by {
            lemma_ptr_count_cons(obs[0], noted(obs.drop_first(), p, c, r), q);
        }
        assert forall|q: u64| q != p implies #[trigger] ptr_count(result, q) == ptr_count(
            obs,
            q,
        ) by {
            lemma_ptr_count_cons(obs[0], obs.drop_first(), q);
            assert(seq![obs[0]] + obs.drop_first() =~= obs);
        }
        assert(ptr_count(result, p) == 1);
        assert forall|q: u64| #[trigger] ptr_count(result, q) <= 1 by {
            if q != p {
                lemma_ptr_count_cons(obs[0], obs.drop_first(), q);
                assert(seq![obs[0]] + obs.drop_first() =~= obs);
            }
        }
        lemma_ptr_count_cons(obs[0], obs.drop_first(), p);
        assert(seq![obs[0]] + obs.drop_first() =~= obs);
    }
}

/// Deduplication law for two sightings at one call site (the accumulator
/// starts well-formed): the same pointer twice leaves exactly one
/// observation for it and adds at most one; two distinct fresh pointers
/// add exactly two, one observation each.
pub proof fn lemma_observation_dedup(
    obs: Seq<Observation>,
    p1: u64,
    c1: u64,
    r1: Option<u64>,
    p2: u64,
    c2: u64,
    r2: Option<u64>,
)
    requires
        observations_wf(obs),
    ensures
        ({
            let once = noted(obs, p1, c1, r1);
            let twice = noted(once, p2, c2, r2);
            &&& observations_wf(twice)
            &&& ptr_count(twice, p1) == 1
            &&& ptr_count(twice, p2) == 1
            &&& (p1 == p2 ==> twice.len() == once.len())
            &&& (p1 != p2 && ptr_count(obs, p1) == 0 && ptr_count(obs, p2) == 0 ==> twice.len()
                == obs.len() + 2)
        }),
{
    lemma_noted_dedup(obs, p1, c1, r1);
    lemma_noted_dedup(noted(obs, p1, c1, r1), p2, c2, r2);
}

/// The per-site accumulator: the call site and its observations, ordered
/// by discovery, never holding the same vtable pointer twice.
pub struct CallSiteRecord {
    pub site: CallSite,
    pub observations: Vec<Observation>,
}

impl CallSiteRecord {
    pub fn new(site: CallSite) -> (rec: CallSiteRecord)
        ensures
            rec.site == site,
            rec.observations@.len() == 0,
    {
        CallSiteRecord { site, observations: Vec::new() }
    }

    /// Records one sighting of a vtable pointer at this site: a duplicate
    /// pointer only advances its hit counter, a new pointer appends one
    /// observation.
    pub fn note(&mut self, vtable_ptr: u64, method_count: u64, resolved_target: Option<u64>)
        ensures
            final(self).site == old(self).site,
            final(self).observations@ == noted(
                old(self).observations@,
                vtable_ptr,
                method_count,
                resolved_target,
            ),
    {
        let ghost target = noted(old(self).observations@, vtable_ptr, method_count,
            resolved_target);
        let n = self.observations.len();
        let mut i: usize = 0;
        while i < n
            invariant
                i <= n,
                n == self.observations@.len(),
                self.observations@ == old(self).observations@,
                self.site == old(self).site,
                forall|j: int| 0 <= j < i ==> self.observations@[j].vtable_ptr != vtable_ptr,
            decreases n - i,
        {
            if self.observations[i].vtable_ptr == vtable_ptr {
                let prior = self.observations[i];
                let bumped = Observation {
                    vtable_ptr: prior.vtable_ptr,
                    method_count: prior.method_count,
                    resolved_target: prior.resolved_target,
                    hits: if prior.hits == u64::MAX {
                        u64::MAX
                    } else {
                        prior.hits + 1
                    },
                };
                let _ = self.observations.remove(i);
                self.observations.insert(i, bumped);
                proof {
                    assert(self.observations@ =~= old(self).observations@.update(
                        i as int,
                        bumped,
                    ));
                    lemma_noted_at_index(
                        old(self).observations@,
                        vtable_ptr,
                        method_count,
                        resolved_target,
                        i as int,
                    );
                }
                return ;
            }
            i = i + 1;
        }
        let fresh = Observation {
            vtable_ptr,
            method_count,
            resolved_target,
            hits: 1,
        };
        self.observations.push(fresh);
        proof {
            lemma_noted_appends(
                old(self).observations@,
                vtable_ptr,
                method_count,
                resolved_target,
            );
        }
    }
}

/// Where the first observation with pointer `p` sits at index `i`, noting
/// `p` only bumps that observation's hit counter in place.
proof fn lemma_noted_at_index(obs: Seq<Observation>, p: u64, c: u64, r: Option<u64>, i: int)
    requires
        0 <= i < obs.len(),
        obs[i].vtable_ptr == p,
        forall|j: int| 0 <= j < i ==> obs[j].vtable_ptr != p,
    ensures
        noted(obs, p, c, r) == obs.update(
            i,
            Observation {
                vtable_ptr: obs[i].vtable_ptr,
                method_count: obs[i].method_count,
                resolved_target: obs[i].resolved_target,
                hits: saturating_inc(obs[i].hits),
            },
        ),
    decreases i,
{
    if i == 0 {
        let bumped = Observation {
            vtable_ptr: obs[0].vtable_ptr,
            method_count: obs[0].method_count,
            resolved_target: obs[0].resolved_target,
            hits: saturating_inc(obs[0].hits),
        };
        assert(noted(obs, p, c, r) =~= obs.update(0, bumped));
    } else {
        assert(obs.drop_first()[i - 1] == obs[i]);
        lemma_noted_at_index(obs.drop_first(), p, c, r, i - 1);
        assert(noted(obs, p, c, r) =~= obs.update(
            i,
            Observation {
                vtable_ptr: obs[i].vtable_ptr,
                method_count: obs[i].method_count,
                resolved_target: obs[i].resolved_target,
                hits: saturating_inc(obs[i].hits),
            },
        ));
    }
}

/// The ghost image of one accumulator record, used to state what the
/// controller does to its records.
pub ghost struct RecordView {
    pub site: CallSite,
    pub observations: Seq<Observation>,
}

impl View for CallSiteRecord {
    type V = RecordView;

    open spec fn view(&self) -> RecordView {
        RecordView { site: self.site, observations: self.observations@ }
    }
}

/// The ghost image of the whole accumulator.
pub open spec fn records_view(records: Seq<CallSiteRecord>) -> Seq<RecordView> {
    records.map_values(|r: CallSiteRecord| r@)
}

/// The first call site in `sites` whose address is `addr`.
pub open spec fn find_site(sites: Seq<CallSite>, addr: u64) -> Option<CallSite>
    decreases sites.len(),
{
    if sites.len() == 0 {
        None
    } else if sites[0].address == addr {
        Some(sites[0])
    } else {
        find_site(sites.drop_first(), addr)
    }
}

/// No two call sites of the list share an address.
pub open spec fn sites_distinct(sites: Seq<CallSite>) -> bool {
    forall|i: int, j: int|
        0 <= i < j < sites.len() ==> sites[i].address != sites[j].address
}

/// The observations accumulated for the (first) record at `addr`; empty
/// where no record exists yet.
pub open spec fn record_observations(rv: Seq<RecordView>, addr: u64) -> Seq<Observation>
    decreases rv.len(),
{
    if rv.len() == 0 {
        Seq::empty()
    } else if rv[0].site.address == addr {
        rv[0].observations
    } else {
        record_observations(rv.drop_first(), addr)
    }
}

/// Whether some observation in `obs` carries the vtable pointer `p`.
pub open spec fn has_ptr(obs: Seq<Observation>, p: u64) -> bool {
    exists|j: int| 0 <= j < obs.len() && obs[j].vtable_ptr == p
}

/// The accumulator after one sighting of pointer `p` at `site`: the
/// (first) record with the site's address notes the sighting; where no
/// record exists yet, one is appended with that single observation.
pub open spec fn records_noted(
    rv: Seq<RecordView>,
    site: CallSite,
    p: u64,
    c: u64,
    r: Option<u64>,
) -> Seq<RecordView>
    decreases rv.len(),
{
    if rv.len() == 0 {
        seq![RecordView { site: site, observations: noted(Seq::empty(), p, c, r) }]
    } else if rv[0].site.address == site.address {
        seq![RecordView { site: rv[0].site, observations: noted(rv[0].observations, p, c, r) }]
            + rv.drop_first()
    } else {
        seq![rv[0]] + records_noted(rv.drop_first(), site, p, c, r)
    }
}

proof fn lemma_find_site_some(sites: Seq<CallSite>, addr: u64)
    requires
        find_site(sites, addr) is Some,
    ensures
        find_site(sites, addr)->0.address == addr,
        sites.contains(find_site(sites, addr)->0),
    decreases sites.len(),
{
    if sites.len() == 0 {
    } else if sites[0].address == addr {
        assert(sites[0] == find_site(sites, addr)->0);
    } else {
        lemma_find_site_some(sites.drop_first(), addr);
        let w = find_site(sites.drop_first(), addr)->0;
        let i = choose|i: int| 0 <= i < sites.drop_first().len() && sites.drop_first()[i] == w;
        assert(sites[i + 1] == w);
    }
}

proof fn lemma_find_site_none(sites: Seq<CallSite>, addr: u64)
    ensures
        (find_site(sites, addr) is None) <==> (forall|i: int|
            0 <= i < sites.len() ==> (#[trigger] sites[i]).address != addr),
    decreases sites.len(),
{
    if sites.len() == 0 {
    } else {
        lemma_find_site_none(sites.drop_first(), addr);
        assert(forall|i: int|
            0 <= i < sites.drop_first().len() ==> sites.drop_first()[i] == sites[i + 1]);
        if sites[0].address != addr && (forall|i: int|
            0 <= i < sites.drop_first().len() ==> (#[trigger] sites.drop_first()[i]).address
                != addr) {
            assert forall|i: int| 0 <= i < sites.len() implies (#[trigger] sites[i]).address
                != addr by {
                if i > 0 {
                    assert(sites.drop_first()[i - 1] == sites[i]);
                }
            }
        }
        if forall|i: int| 0 <= i < sites.len() ==> (#[trigger] sites[i]).address != addr {
            assert forall|i: int|
                0 <= i < sites.drop_first().len() implies (#[trigger] sites.drop_first()[
                i]).address != addr by {
                assert(sites.drop_first()[i] == sites[i + 1]);
            }
        }
    }
}

proof fn lemma_find_site_push(sites: Seq<CallSite>, x: CallSite, addr: u64)
    ensures
        find_site(sites.push(x), addr) == (if find_site(sites, addr) is Some {
            find_site(sites, addr)
        } else if x.address == addr {
            Some(x)
        } else {
            None
        }),
    decreases sites.len(),
{
    if sites.len() == 0 {
        assert(sites.push(x)[0] == x);
        assert(sites.push(x).drop_first() =~= Seq::<CallSite>::empty());
    } else {
        assert(sites.push(x)[0] == sites[0]);
        assert(sites.push(x).drop_first() =~= sites.drop_first().push(x));
        lemma_find_site_push(sites.drop_first(), x, addr);
    }
}

/// Where the first record with the site's address sits at index `i`,
/// noting a sighting rewrites exactly that record.
proof fn lemma_records_noted_update(
    rv: Seq<RecordView>,
    i: int,
    site: CallSite,
    p: u64,
    c: u64,
    r: Option<u64>,
)
    requires
        0 <= i < rv.len(),
        rv[i].site.address == site.address,
        forall|j: int| 0 <= j < i ==> rv[j].site.address != site.address,
    ensures
        records_noted(rv, site, p, c, r) == rv.update(
            i,
            RecordView { site: rv[i].site, observations: noted(rv[i].observations, p, c, r) },
        ),
    decreases i,
{
    if i == 0 {
        assert(records_noted(rv, site, p, c, r) =~= rv.update(
            0,
            RecordView { site: rv[0].site, observations: noted(rv[0].observations, p, c, r) },
        ));
    } else {
        assert(rv.drop_first()[i - 1] == rv[i]);
        assert(forall|j: int| 0 <= j < rv.drop_first().len() ==> rv.drop_first()[j] == rv[j + 1]);
        lemma_records_noted_update(rv.drop_first(), i - 1, site, p, c, r);
        assert(records_noted(rv, site, p, c, r) =~= rv.update(
            i,
            RecordView { site: rv[i].site, observations: noted(rv[i].observations, p, c, r) },
        ));
    }
}

/// Where no record has the site's address yet, noting a sighting appends
/// one record with that single observation.
proof fn lemma_records_noted_push(rv: Seq<RecordView>, site: CallSite, p: u64, c: u64, r: Option<
    u64,
>)
    requires
        forall|j: int| 0 <= j < rv.len() ==> (#[trigger] rv[j]).site.address != site.address,
    ensures
        records_noted(rv, site, p, c, r) == rv.push(
            RecordView { site: site, observations: noted(Seq::empty(), p, c, r) },
        ),
    decreases rv.len(),
{
    if rv.len() == 0 {
        assert(records_noted(rv, site, p, c, r) =~= rv.push(
            RecordView { site: site, observations: noted(Seq::empty(), p, c, r) },
        ));
    } else {
        assert(forall|j: int| 0 <= j < rv.drop_first().len() ==> rv.drop_first()[j] == rv[j + 1]);
        lemma_records_noted_push(rv.drop_first(), site, p, c, r);
        assert(records_noted(rv, site, p, c, r) =~= rv.push(
            RecordView { site: site, observations: noted(Seq::empty(), p, c, r) },
        ));
    }
}

/// Where the first record with address `addr` sits at index `i`, the
/// accumulated observations for `addr` are that record's.
proof fn lemma_record_observations_at(rv: Seq<RecordView>, addr: u64, i: int)
    requires
        0 <= i < rv.len(),
        rv[i].site.address == addr,
        forall|j: int| 0 <= j < i ==> rv[j].site.address != addr,
    ensures
        record_observations(rv, addr) == rv[i].observations,
    decreases i,
{
    if i == 0 {
    } else {
        assert(rv.drop_first()[i - 1] == rv[i]);
        assert(forall|j: int| 0 <= j < rv.drop_first().len() ==> rv.drop_first()[j] == rv[j + 1]);
        lemma_record_observations_at(rv.drop_first(), addr, i - 1);
    }
}

/// Where no record has address `addr`, the accumulated observations for
/// `addr` are empty.
proof fn lemma_record_observations_absent(rv: Seq<RecordView>, addr: u64)
    requires
        forall|j: int| 0 <= j < rv.len() ==> (#[trigger] rv[j]).site.address != addr,
    ensures
        record_observations(rv, addr) == Seq::<Observation>::empty(),
    decreases rv.len(),
{
    if rv.len() == 0 {
    } else {
        assert(forall|j: int| 0 <= j < rv.drop_first().len() ==> rv.drop_first()[j] == rv[j + 1]);
        lemma_record_observations_absent(rv.drop_first(), addr);
    }
}

/// The first call site of `sites` whose static address is `addr`.
pub fn find_site_in(sites: &Vec<CallSite>, addr: u64) -> (r: Option<CallSite>)
    ensures
        r == find_site(sites@, addr),
{
    let n = sites.len();
    let mut i: usize = 0;
    proof {
        assert(sites@.subrange(0, n as int) =~= sites@);
    }
    while i < n
        invariant
            i <= n,
            n == sites@.len(),
            find_site(sites@, addr) == find_site(sites@.subrange(i as int, n as int), addr),
        decreases n - i,
    {
        proof {
            assert(sites@.subrange(i as int, n as int)[0] == sites@[i as int]);
            assert(sites@.subrange(i as int, n as int).drop_first() =~= sites@.subrange(
                i + 1,
                n as int,
            ));
        }
        let cs = sites[i];
        if cs.address == addr {
            return Some(cs);
        }
        i = i + 1;
    }
    proof {
        assert(sites@.subrange(n as int, n as int).len() == 0);
    }
    None
}

fn find_record_index(records: &Vec<CallSiteRecord>, addr: u64) -> (r: Option<usize>)
    ensures
        match r {
            Some(i) => i < records@.len() && records@[i as int].site.address == addr && forall|
                j: int,
            | 0 <= j < i ==> records@[j].site.address != addr,
            None => forall|j: int|
                0 <= j < records@.len() ==> (#[trigger] records@[j]).site.address != addr,
        },
{
    let n = records.len();
    let mut i: usize = 0;
    while i < n
        invariant
            i <= n,
            n == records@.len(),
            forall|j: int| 0 <= j < i ==> records@[j].site.address != addr,
        decreases n - i,
    {
        if records[i].site.address == addr {
            return Some(i);
        }
        i = i + 1;
    }
    None
}

/// The phases of one trace session over a single debuggee.
#[derive(Clone, Copy, PartialEq, Eq, Structural, Debug)]
pub enum SessionState {
    NotLaunched,
    Launched,
    Tracing,
    Exited,
}

/// The live-correlation controller of one trace session. It owns the call
/// sites under trace, the session's rebase offset and the per-site
/// accumulator, and decides what happens at every stop; the caller performs
/// the process control.
pub struct TraceController {
    pub state: SessionState,
    pub static_entry: u64,
    pub max_scan_bytes: u64,
    pub call_sites: Vec<CallSite>,
    pub rebase: RebaseOffset,
    pub records: Vec<CallSiteRecord>,
    pub exit_code: Option<u32>,
}

impl TraceController {
    /// The session invariant: call sites are unique per address, the scan
    /// bound is enforceable, every record belongs to a known call site,
    /// records are unique per address and each keeps its observations
    /// deduplicated, and nothing is accumulated before launch.
    pub open spec fn wf(self) -> bool {
        &&& sites_distinct(self.call_sites@)
        &&& self.max_scan_bytes <= MAX_SCAN_BYTES
        &&& forall|i: int|
            0 <= i < self.records@.len() ==> observations_wf(
                (#[trigger] self.records@[i]).observations@,
            )
        &&& forall|i: int, j: int|
            0 <= i < j < self.records@.len() ==> self.records@[i].site.address
                != self.records@[j].site.address
        &&& forall|i: int|
            0 <= i < self.records@.len() ==> find_site(
                self.call_sites@,
                (#[trigger] self.records@[i]).site.address,
            ) == Some(self.records@[i].site)
        &&& (self.state == SessionState::NotLaunched ==> self.records@.len() == 0
            && self.rebase.bias == 0)
    }

    /// A fresh session over the discovered call sites. Call sites are kept
    /// by identity — the static address — so a duplicate address collapses
    /// into its first discovery and breakpoint addresses stay in
    /// one-to-one correspondence with call sites.
    pub fn new(call_sites: Vec<CallSite>, static_entry: u64, max_scan_bytes: u64) -> (c:
        TraceController)
        requires
            max_scan_bytes <= MAX_SCAN_BYTES,
        ensures
            c.wf(),
            c.state == SessionState::NotLaunched,
            c.static_entry == static_entry,
            c.max_scan_bytes == max_scan_bytes,
            c.records@.len() == 0,
            c.exit_code is None,
            sites_distinct(c.call_sites@),
            forall|a: u64| #[trigger] find_site(c.call_sites@, a) == find_site(call_sites@, a),
            forall|i: int|
                0 <= i < c.call_sites@.len() ==> call_sites@.contains(#[trigger] c.call_sites@[i]),
            call_sites@.len() == 0 ==> c.call_sites@.len() == 0,
    {
        let n = call_sites.len();
        let mut unique: Vec<CallSite> = Vec::new();
        let mut i: usize = 0;
        proof {
            assert forall|a: u64| #[trigger] find_site(unique@, a) == find_site(
                call_sites@.subrange(0, 0),
                a,
            ) by {
                assert(unique@ =~= call_sites@.subrange(0, 0));
            }
        }
        while i < n
            invariant
                i <= n,
                n == call_sites@.len(),
                sites_distinct(unique@),
                forall|a: u64| #[trigger] find_site(unique@, a) == find_site(
                    call_sites@.subrange(0, i as int),
                    a,
                ),
                forall|k: int|
                    0 <= k < unique@.len() ==> call_sites@.contains(#[trigger] unique@[k]),
                i == 0 ==> unique@.len() == 0,
            decreases n - i,
        {
            let cs = call_sites[i];
            let ghost prefix = call_sites@.subrange(0, i as int);
            proof {
                assert(call_sites@.subrange(0, i + 1) =~= prefix.push(cs));
            }
            match find_site_in(&unique, cs.address) {
                Some(_) => {
                    proof {
                        assert forall|a: u64| #[trigger] find_site(unique@, a) == find_site(
                            call_sites@.subrange(0, i + 1),
                            a,
                        ) by {
                            lemma_find_site_push(prefix, cs, a);
                        }
                    }
                },
                None => {
                    let ghost pre = unique@;
                    proof {
                        lemma_find_site_none(pre, cs.address);
                    }
                    unique.push(cs);
                    proof {
                        assert forall|a: u64| #[trigger] find_site(unique@, a) == find_site(
                            call_sites@.subrange(0, i + 1),
                            a,
                        ) by {
                            lemma_find_site_push(pre, cs, a);
                            lemma_find_site_push(prefix, cs, a);
                            assert(find_site(pre, a) == find_site(prefix, a));
                        }
                        assert(call_sites@.contains(cs)) by {
                            assert(call_sites@[i as int] == cs);
                        }
                        assert forall|k: int, j: int|
                            0 <= k < j < unique@.len() implies unique@[k].address
                            != unique@[j].address by {
                            if j == unique@.len() - 1 {
                                assert(unique@[j] == cs);
                                assert(pre[k].address != cs.address);
                            }
                        }
                    }
                },
            }
            i = i + 1;
        }
        proof {
            assert(call_sites@.subrange(0, n as int) =~= call_sites@);
        }
        TraceController {
            state: SessionState::NotLaunched,
            static_entry,
            max_scan_bytes,
            call_sites: unique,
            rebase: RebaseOffset { bias: 0 },
            records: Vec::new(),
            exit_code: None,
        }
    }

    /// The transition out of `NotLaunched`, at the first stop after the
    /// launch request. A stop that reports the process already exited is
    /// fatal for the session: it moves straight to `Exited` and installs
    /// nothing. Otherwise the session computes its rebase offset from the
    /// observed runtime entry, moves to `Tracing`, and returns the runtime
    /// breakpoint address of every call site, in discovery order, for the
    /// caller to install before resuming.
    pub fn on_launch(&mut self, reason: BNDebugStopReason, runtime_entry: u64) -> (bps: Vec<u64>)
        requires
            old(self).wf(),
            old(self).state == SessionState::NotLaunched,
        ensures
            final(self).wf(),
            final(self).call_sites@ == old(self).call_sites@,
            final(self).records@ == old(self).records@,
            final(self).static_entry == old(self).static_entry,
            final(self).max_scan_bytes == old(self).max_scan_bytes,
            final(self).exit_code == old(self).exit_code,
            reason == BNDebugStopReason::ProcessExited ==> final(self).state
                == SessionState::Exited && bps@.len() == 0 && final(self).rebase == old(
                self,
            ).rebase,
            reason != BNDebugStopReason::ProcessExited ==> {
                &&& final(self).state == SessionState::Tracing
                &&& final(self).rebase.bias == bias_spec(old(self).static_entry, runtime_entry)
                &&& bps@.len() == old(self).call_sites@.len()
                &&& forall|i: int|
                    0 <= i < bps@.len() ==> bps@[i] == translate_spec(
                        final(self).rebase,
                        old(self).call_sites@[i].address,
                    )
            },
    {
        if matches!(reason, BNDebugStopReason::ProcessExited) {
            self.state = SessionState::Exited;
            return Vec::new();
        }
        self.state = SessionState::Launched;
        self.rebase = RebaseOffset::compute_offset(self.static_entry, runtime_entry);
        let n = self.call_sites.len();
        let mut bps: Vec<u64> = Vec::new();
        let mut i: usize = 0;
        while i < n
            invariant
                i <= n,
                n == self.call_sites@.len(),
                bps@.len() == i,
                forall|j: int|
                    0 <= j < i ==> bps@[j] == translate_spec(
                        self.rebase,
                        self.call_sites@[j].address,
                    ),
            decreases n - i,
        {
            let bp = self.rebase.translate(self.call_sites[i].address);
            bps.push(bp);
            i = i + 1;
        }
        self.state = SessionState::Tracing;
        bps
    }

    /// Whether a stop at runtime address `ip` lands on one of the
    /// session's breakpoints, i.e. translates back to a known call site.
    /// A stop anywhere else is no error: the caller simply resumes.
    pub fn is_hit(&self, ip: u64) -> (r: bool)
        ensures
            r == (find_site(self.call_sites@, translate_inverse_spec(self.rebase, ip)) is Some),
    {
        match self.hit_site(ip) {
            Some(_) => true,
            None => false,
        }
    }

    /// The call site a stop at runtime address `ip` belongs to, if any.
    pub fn hit_site(&self, ip: u64) -> (r: Option<CallSite>)
        ensures
            r == find_site(self.call_sites@, translate_inverse_spec(self.rebase, ip)),
    {
        let static_addr = self.rebase.translate_inverse(ip);
        find_site_in(&self.call_sites, static_addr)
    }

    /// Handles one stop at a known breakpoint. The caller hands in plain
    /// values it read from the debuggee: the stopped instruction pointer,
    /// the base register's current value, a snapshot of the memory window
    /// starting at that value, and the runtime section table. A zero base
    /// register means the receiver object is not constructed yet: nothing
    /// is recorded and the caller resumes. Otherwise the vtable boundary
    /// is estimated against the snapshot, the resolved call target is
    /// looked up at `base + offset`, and the observation is recorded,
    /// deduplicated per call site by vtable pointer value. Returns whether
    /// a new observation was recorded (a duplicate only advances its hit
    /// counter).
    pub fn record_hit(
        &mut self,
        ip: u64,
        base_value: u64,
        mem: &MemorySnapshot,
        sections: &SectionTable,
    ) -> (recorded: bool)
        requires
            old(self).wf(),
            old(self).state == SessionState::Tracing,
        ensures
            final(self).wf(),
            final(self).state == SessionState::Tracing,
            final(self).call_sites@ == old(self).call_sites@,
            final(self).static_entry == old(self).static_entry,
            final(self).max_scan_bytes == old(self).max_scan_bytes,
            final(self).rebase == old(self).rebase,
            final(self).exit_code == old(self).exit_code,
            ({
                let site_opt = find_site(
                    old(self).call_sites@,
                    translate_inverse_spec(old(self).rebase, ip),
                );
                if site_opt is None || base_value == 0 {
                    final(self).records@ == old(self).records@ && recorded == false
                } else {
                    let site = site_opt->0;
                    let count = method_count_spec(
                        mem.slots@,
                        sections.regions@,
                        base_value,
                        old(self).max_scan_bytes,
                    ) as u64;
                    let resolved = slot_lookup(
                        mem.slots@,
                        u64_specs::wrapping_add_signed(base_value, site.offset),
                    );
                    &&& records_view(final(self).records@) == records_noted(
                        records_view(old(self).records@),
                        site,
                        base_value,
                        count,
                        resolved,
                    )
                    &&& recorded == !has_ptr(
                        record_observations(records_view(old(self).records@), site.address),
                        base_value,
                    )
                }
            }),
    {
        let static_addr = self.rebase.translate_inverse(ip);
        let site = match find_site_in(&self.call_sites, static_addr) {
            Some(s) => s,
            None => {
                return false;
            },
        };
        if base_value == 0 {
            return false;
        }
        let count = estimate_method_count(mem, sections, base_value, self.max_scan_bytes);
        let resolved = mem.read_u64(base_value.wrapping_add_signed(site.offset));
        let ghost old_rv = records_view(old(self).records@);
        proof {
            lemma_find_site_some(old(self).call_sites@, static_addr);
            assert(site.address == static_addr);
        }
        match find_record_index(&self.records, site.address) {
            Some(idx) => {
                let ghost old_records = self.records@;
                let mut rec = self.records.remove(idx);
                let ghost obs_before = rec.observations@;
                let fresh = !record_has_ptr(&rec, base_value);
                rec.note(base_value, count, resolved);
                self.records.insert(idx, rec);
                proof {
                    assert(self.records@ =~= old_records.update(idx as int, self.records@[
                    idx as int]));
                    let rec_view = RecordView {
                        site: old_rv[idx as int].site,
                        observations: noted(obs_before, base_value, count, resolved),
                    };
                    assert(self.records@[idx as int]@ == rec_view);
                    assert(records_view(self.records@) =~= old_rv.update(idx as int, rec_view));
                    assert forall|j: int| 0 <= j < idx implies old_rv[j].site.address
                        != site.address by {
                        assert(old_records[j].site.address != site.address);
                    }
                    lemma_records_noted_update(old_rv, idx as int, site, base_value, count,
                        resolved);
                    lemma_record_observations_at(old_rv, site.address, idx as int);
                    lemma_noted_dedup(obs_before, base_value, count, resolved);
                    assert forall|i: int|
                        0 <= i < self.records@.len() implies observations_wf(
                        (#[trigger] self.records@[i]).observations@,
                    ) by {
                        if i != idx {
                            assert(self.records@[i] == old_records[i]);
                        }
                    }
                    assert forall|i: int|
                        0 <= i < self.records@.len() implies find_site(
                        self.call_sites@,
                        (#[trigger] self.records@[i]).site.address,
                    ) == Some(self.records@[i].site) by {
                        if i != idx {
                            assert(self.records@[i] == old_records[i]);
                        } else {
                            assert(self.records@[i].site == old_records[idx as int].site);
                        }
                    }
                }
                fresh
            },
            None => {
                let ghost old_records = self.records@;
                let mut rec = CallSiteRecord::new(site);
                rec.note(base_value, count, resolved);
                self.records.push(rec);
                proof {
                    let rec_view = RecordView {
                        site: site,
                        observations: noted(Seq::empty(), base_value, count, resolved),
                    };
                    assert(self.records@[old_records.len() as int]@ == rec_view);
                    assert(records_view(self.records@) =~= old_rv.push(rec_view));
                    assert forall|j: int| 0 <= j < old_rv.len() implies (#[trigger] old_rv[
                    j]).site.address != site.address by {
                        assert(old_records[j].site.address != site.address);
                    }
                    lemma_records_noted_push(old_rv, site, base_value, count, resolved);
                    lemma_record_observations_absent(old_rv, site.address);
                    lemma_noted_dedup(Seq::empty(), base_value, count, resolved);
                    assert(!has_ptr(Seq::empty(), base_value));
                    assert forall|i: int|
                        0 <= i < self.records@.len() implies observations_wf(
                        (#[trigger] self.records@[i]).observations@,
                    ) by {
                        if i < old_records.len() {
                            assert(self.records@[i] == old_records[i]);
                        } else {
                            assert(self.records@[i].observations@ == noted(
                                Seq::empty(),
                                base_value,
                                count,
                                resolved,
                            ));
                        }
                    }
                    assert forall|i: int|
                        0 <= i < self.records@.len() implies find_site(
                        self.call_sites@,
                        (#[trigger] self.records@[i]).site.address,
                    ) == Some(self.records@[i].site) by {
                        if i < old_records.len() {
                            assert(self.records@[i] == old_records[i]);
                        }
                    }
                }
                true
            },
        }
    }

    /// The transition to `Exited`: the debuggee is gone, the exit code is
    /// recorded, and the accumulator is frozen for synthesis.
    pub fn on_exit(&mut self, code: u32)
        requires
            old(self).wf(),
            old(self).state == SessionState::Tracing || old(self).state == SessionState::Exited,
        ensures
            final(self).wf(),
            final(self).state == SessionState::Exited,
            final(self).exit_code == Some(code),
            final(self).call_sites@ == old(self).call_sites@,
            final(self).records@ == old(self).records@,
            final(self).static_entry == old(self).static_entry,
            final(self).max_scan_bytes == old(self).max_scan_bytes,
            final(self).rebase == old(self).rebase,
    {
        self.state = SessionState::Exited;
        self.exit_code = Some(code);
    }
}

/// Whether this record already carries an observation with pointer `p`.
fn record_has_ptr(rec: &CallSiteRecord, p: u64) -> (r: bool)
    ensures
        r == has_ptr(rec.observations@, p),
{
    let n = rec.observations.len();
    let mut i: usize = 0;
    while i < n
        invariant
            i <= n,
            n == rec.observations@.len(),
            forall|j: int| 0 <= j < i ==> rec.observations@[j].vtable_ptr != p,
        decreases n - i,
    {
        if rec.observations[i].vtable_ptr == p {
            return true;
        }
        i = i + 1;
    }
    false
}

/// The one-to-one correspondence of breakpoints and call sites (law):
/// under any fixed rebase offset, a stop address is recognized as a hit
/// exactly when it is the translation of a known call site's address.
pub proof fn lemma_hit_iff_breakpoint(sites: Seq<CallSite>, r: RebaseOffset, ip: u64)
    ensures
        (find_site(sites, translate_inverse_spec(r, ip)) is Some) <==> exists|i: int|
            0 <= i < sites.len() && translate_spec(r, (#[trigger] sites[i]).address) == ip,
{
    let back = translate_inverse_spec(r, ip);
    if find_site(sites, back) is Some {
        lemma_find_site_some(sites, back);
        let w = find_site(sites, back)->0;
        let i = choose|i: int| 0 <= i < sites.len() && sites[i] == w;
        lemma_translate_round_trip(r, ip);
        assert(translate_spec(r, sites[i].address) == ip);
    }
    if exists|i: int| 0 <= i < sites.len() && translate_spec(r, (#[trigger] sites[i]).address)
        == ip {
        let i = choose|i: int|
            0 <= i < sites.len() && translate_spec(r, (#[trigger] sites[i]).address) == ip;
        lemma_translate_round_trip(r, sites[i].address);
        assert(sites[i].address == back);
        lemma_find_site_none(sites, back);
    }
}

/// Where no observation carries pointer `p`, noting `p` appends one fresh
/// observation with one hit.
proof fn lemma_noted_appends(obs: Seq<Observation>, p: u64, c: u64, r: Option<u64>)
    requires
        forall|j: int| 0 <= j < obs.len() ==> obs[j].vtable_ptr != p,
    ensures
        noted(obs, p, c, r) == obs.push(
            Observation { vtable_ptr: p, method_count: c, resolved_target: r, hits: 1 },
        ),
    decreases obs.len(),
{
    if obs.len() == 0 {
        assert(noted(obs, p, c, r) =~= obs.push(
            Observation { vtable_ptr: p, method_count: c, resolved_target: r, hits: 1 },
        ));
    } else {
        assert(forall|j: int|
            0 <= j < obs.drop_first().len() ==> obs.drop_first()[j] == obs[j + 1]);
        lemma_noted_appends(obs.drop_first(), p, c, r);
        assert(noted(obs, p, c, r) =~= obs.push(
            Observation { vtable_ptr: p, method_count: c, resolved_target: r, hits: 1 },
        ));
    }
}

} // verus!
