//! The static-image vtable path: parse a vtable at a known address after
//! validating its header, bound each vtable's size by its sorted neighbor
//! addresses, and sweep a memory range for plausible vtable headers.

use vstd::prelude::*;

use crate::estimator::MAX_SCAN_BYTES;
use crate::estimator::VTABLE_HEADER_SIZE;
use crate::estimator::estimate_method_count;
use crate::estimator::header_valid_spec;
use crate::estimator::is_valid_vtable_header;
use crate::estimator::method_count_spec;
use crate::estimator::rel_addr;
use crate::estimator::slot_addr;
use crate::estimator::slot_is_method;
use crate::memory::MemRegion;
use crate::memory::MemorySnapshot;
use crate::memory::SectionTable;
use crate::memory::slot_lookup;

verus! {

/// The scan bound used for the last vtable of a sorted batch, which has no
/// neighbor to bound it.
pub const VTABLE_DEFAULT_LAST_SPAN: u64 = 0x200;

/// Everything parsed from one vtable: its header fields and the run of
/// method pointers after them.
pub struct VtableInfo {
    pub address: u64,
    pub size: u64,
    pub drop_fn: u64,
    pub type_size: u64,
    pub type_align: u64,
    pub method_count: usize,
    pub methods: Vec<u64>,
}

/// The ghost image of a parsed vtable.
pub ghost struct VtableInfoView {
    pub address: u64,
    pub size: u64,
    pub drop_fn: u64,
    pub type_size: u64,
    pub type_align: u64,
    pub method_count: nat,
    pub methods: Seq<u64>,
}

impl View for VtableInfo {
    type V = VtableInfoView;

    open spec fn view(&self) -> VtableInfoView {
        VtableInfoView {
            address: self.address,
            size: self.size,
            drop_fn: self.drop_fn,
            type_size: self.type_size,
            type_align: self.type_align,
            method_count: self.method_count as nat,
            methods: self.methods@,
        }
    }
}

impl VtableInfo {
    /// Whether this vtable has a cleanup (drop) function.
    pub fn has_drop(&self) -> (r: bool)
        ensures
            r == (self.drop_fn != 0),
    {
        self.drop_fn != 0
    }

    /// Whether the type behind this vtable is zero-sized.
    pub fn is_zst(&self) -> (r: bool)
        ensures
            r == (self.type_size == 0),
    {
        self.type_size == 0
    }
}

/// The ghost image of a batch of parsed vtables.
pub open spec fn infos_view(infos: Seq<VtableInfo>) -> Seq<VtableInfoView> {
    infos.map_values(|v: VtableInfo| v@)
}

/// The method-pointer values of the first `n` slots of the vtable at
/// `addr`.
pub open spec fn method_values(mem: Seq<(u64, u64)>, addr: u64, n: nat) -> Seq<u64> {
    Seq::new(n, |k: int| slot_lookup(mem, slot_addr(addr, k as nat))->0)
}

/// What parsing the vtable at `addr` yields: nothing where the header is
/// implausible, otherwise the header fields and the bounded run of method
/// pointers.
pub open spec fn parsed_vtable_spec(
    mem: Seq<(u64, u64)>,
    regions: Seq<MemRegion>,
    addr: u64,
    max_size: u64,
) -> Option<VtableInfoView> {
    if header_valid_spec(mem, regions, addr) {
        let count = method_count_spec(mem, regions, addr, max_size);
        Some(
            VtableInfoView {
                address: addr,
                size: (VTABLE_HEADER_SIZE + 8 * count) as u64,
                drop_fn: slot_lookup(mem, addr)->0,
                type_size: slot_lookup(mem, rel_addr(addr, 8))->0,
                type_align: slot_lookup(mem, rel_addr(addr, 16))->0,
                method_count: count,
                methods: method_values(mem, addr, count),
            },
        )
    } else {
        None
    }
}

/// The size in bytes of the vtable at `addr`: the header plus the run of
/// consecutive method-pointer slots, bounded by `max_size`.
pub fn get_vtable_size(
    mem: &MemorySnapshot,
    sections: &SectionTable,
    addr: u64,
    max_size: u64,
) -> (size: u64)
    requires
        max_size <= MAX_SCAN_BYTES,
    ensures
        size as nat == VTABLE_HEADER_SIZE + 8 * method_count_spec(
            mem.slots@,
            sections.regions@,
            addr,
            max_size,
        ),
{
    let count = estimate_method_count(mem, sections, addr, max_size);
    VTABLE_HEADER_SIZE + 8 * count
}

fn collect_methods(
    mem: &MemorySnapshot,
    sections: &SectionTable,
    addr: u64,
    max_size: u64,
) -> (methods: Vec<u64>)
    requires
        max_size <= MAX_SCAN_BYTES,
    ensures
        methods@.len() == method_count_spec(mem.slots@, sections.regions@, addr, max_size),
        methods@.len() <= 65536,
        forall|k: int|
            0 <= k < methods@.len() ==> Some(#[trigger] methods@[k]) == slot_lookup(
                mem.slots@,
                slot_addr(addr, k as nat),
            ),
{
    let mut methods: Vec<u64> = Vec::new();
    if max_size <= VTABLE_HEADER_SIZE {
        return methods;
    }
    let n: u64 = (max_size - VTABLE_HEADER_SIZE + 7) / 8;
    let mut k: u64 = 0;
    while k < n
        invariant
            k <= n,
            n <= 65536,
            n as nat == crate::estimator::num_slots(max_size),
            methods@.len() == k,
            crate::estimator::run_len(mem.slots@, sections.regions@, addr, 0, n as nat) == k as nat
                + crate::estimator::run_len(
                mem.slots@,
                sections.regions@,
                addr,
                k as nat,
                (n - k) as nat,
            ),
            forall|j: int|
                0 <= j < k ==> Some(#[trigger] methods@[j]) == slot_lookup(
                    mem.slots@,
                    slot_addr(addr, j as nat),
                ),
        decreases n - k,
    {
        let off: u64 = VTABLE_HEADER_SIZE + 8 * k;
        let slot = addr.wrapping_add(off);
        proof {
            assert(slot == slot_addr(addr, k as nat));
        }
        let value = match mem.read_u64(slot) {
            Some(v) => v,
            None => {
                return methods;
            },
        };
        if !sections.is_code_pointer(value) {
            return methods;
        }
        proof {
            assert(slot_is_method(mem.slots@, sections.regions@, addr, k as nat));
        }
        methods.push(value);
        k = k + 1;
    }
    methods
}

/// Parses the vtable at `addr`: validates the header (the cleanup pointer
/// null or code, the size and alignment sane) and collects the run of
/// method pointers after it, bounded by `max_size`. An implausible header
/// yields nothing at all; a plausible header with no method pointers
/// yields a vtable with zero methods, not an error.
pub fn parse_vtable(
    mem: &MemorySnapshot,
    sections: &SectionTable,
    addr: u64,
    max_size: u64,
) -> (r: Option<VtableInfo>)
    requires
        max_size <= MAX_SCAN_BYTES,
    ensures
        match r {
            Some(info) => Some(info@) == parsed_vtable_spec(
                mem.slots@,
                sections.regions@,
                addr,
                max_size,
            ),
            None => parsed_vtable_spec(mem.slots@, sections.regions@, addr, max_size) is None,
        },
{
    if !is_valid_vtable_header(mem, sections, addr) {
        return None;
    }
    let drop_fn = match mem.read_u64(addr) {
        Some(v) => v,
        None => {
            return None;
        },
    };
    let type_size = match mem.read_u64(addr.wrapping_add(8)) {
        Some(v) => v,
        None => {
            return None;
        },
    };
    let type_align = match mem.read_u64(addr.wrapping_add(16)) {
        Some(v) => v,
        None => {
            return None;
        },
    };
    let methods = collect_methods(mem, sections, addr, max_size);
    let method_count = methods.len();
    let size = VTABLE_HEADER_SIZE + 8 * (method_count as u64);
    let info = VtableInfo { address: addr, size, drop_fn, type_size, type_align, method_count,
        methods };
    proof {
        let spec_view = parsed_vtable_spec(mem.slots@, sections.regions@, addr, max_size)->0;
        assert(info@.methods =~= spec_view.methods);
    }
    Some(info)
}

/// Whether the addresses of a batch are in ascending order.
pub open spec fn sorted_u64(s: Seq<u64>) -> bool {
    forall|i: int, j: int| 0 <= i < j < s.len() ==> s[i] <= s[j]
}

/// The ascending sequence that inserting `x` into `s` yields, before the
/// first element it is at most equal to.
pub open spec fn insert_sorted(s: Seq<u64>, x: u64) -> Seq<u64>
    decreases s.len(),
{
    if s.len() == 0 {
        seq![x]
    } else if x <= s[0] {
        seq![x] + s
    } else {
        seq![s[0]] + insert_sorted(s.drop_first(), x)
    }
}

/// The ascending rearrangement of a batch of addresses, built by repeated
/// insertion.
pub open spec fn sort_spec(s: Seq<u64>) -> Seq<u64>
    decreases s.len(),
{
    if s.len() == 0 {
        Seq::empty()
    } else {
        insert_sorted(sort_spec(s.drop_last()), s.last())
    }
}

proof fn lemma_insert_sorted_at(s: Seq<u64>, x: u64, j: int)
    requires
        0 <= j <= s.len(),
        forall|k: int| 0 <= k < j ==> s[k] < x,
        j == s.len() || x <= s[j],
    ensures
        insert_sorted(s, x) == s.subrange(0, j) + seq![x] + s.subrange(j, s.len() as int),
    decreases j,
{
    if j == 0 {
        assert(insert_sorted(s, x) =~= s.subrange(0, 0) + seq![x] + s.subrange(
            0,
            s.len() as int,
        ));
    } else {
        assert(s[0] < x);
        assert(forall|k: int| 0 <= k < s.drop_first().len() ==> s.drop_first()[k] == s[k + 1]);
        lemma_insert_sorted_at(s.drop_first(), x, j - 1);
        assert(insert_sorted(s, x) =~= s.subrange(0, j) + seq![x] + s.subrange(
            j,
            s.len() as int,
        ));
    }
}

proof fn lemma_insert_sorted_sorted(s: Seq<u64>, x: u64)
    requires
        sorted_u64(s),
    ensures
        sorted_u64(insert_sorted(s, x)),
        insert_sorted(s, x).len() == s.len() + 1,
    decreases s.len(),
{
    if s.len() == 0 {
    } else if x <= s[0] {
        let r = seq![x] + s;
        assert forall|i: int, j: int| 0 <= i < j < r.len() implies r[i] <= r[j] by {
            if i > 0 {
                assert(r[i] == s[i - 1]);
                assert(r[j] == s[j - 1]);
            } else {
                assert(r[j] == s[j - 1]);
                assert(x <= s[0] <= s[j - 1]);
            }
        }
    } else {
        assert forall|i: int, j: int|
            0 <= i < j < s.drop_first().len() implies s.drop_first()[i] <= s.drop_first()[j] by {
            assert(s.drop_first()[i] == s[i + 1]);
            assert(s.drop_first()[j] == s[j + 1]);
        }
        lemma_insert_sorted_sorted(s.drop_first(), x);
        let inner = insert_sorted(s.drop_first(), x);
        let r = seq![s[0]] + inner;
        assert forall|i: int, j: int| 0 <= i < j < r.len() implies r[i] <= r[j] by {
            if i > 0 {
                assert(r[i] == inner[i - 1]);
                assert(r[j] == inner[j - 1]);
            } else {
                assert(r[j] == inner[j - 1]);
                assert(s[0] <= inner[j - 1]) by {
                    lemma_insert_sorted_low(s.drop_first(), x, s[0], j - 1);
                }
            }
        }
    }
}

proof fn lemma_insert_sorted_low(s: Seq<u64>, x: u64, bound: u64, j: int)
    requires
        0 <= j < insert_sorted(s, x).len(),
        bound < x,
        forall|k: int| 0 <= k < s.len() ==> bound <= #[trigger] s[k],
    ensures
        bound <= insert_sorted(s, x)[j],
    decreases s.len(),
{
    if s.len() == 0 {
    } else if x <= s[0] {
    } else {
        if j > 0 {
            assert(forall|k: int|
                0 <= k < s.drop_first().len() ==> bound <= #[trigger] s.drop_first()[k]) by {
                assert(forall|k: int|
                    0 <= k < s.drop_first().len() ==> s.drop_first()[k] == s[k + 1]);
            }
            lemma_insert_sorted_low(s.drop_first(), x, bound, j - 1);
        }
    }
}

/// Sorts a batch of addresses ascending, by insertion.
pub fn sort_addresses(addrs: &Vec<u64>) -> (r: Vec<u64>)
    ensures
        r@ == sort_spec(addrs@),
        sorted_u64(r@),
        r@.len() == addrs@.len(),
{
    let n = addrs.len();
    let mut out: Vec<u64> = Vec::new();
    let mut i: usize = 0;
    proof {
        assert(addrs@.subrange(0, 0) =~= Seq::<u64>::empty());
    }
    while i < n
        invariant
            i <= n,
            n == addrs@.len(),
            out@ == sort_spec(addrs@.subrange(0, i as int)),
            sorted_u64(out@),
            out@.len() == i,
        decreases n - i,
    {
        let x = addrs[i];
        let m = out.len();
        let mut j: usize = 0;
        while j < m && out[j] < x
            invariant
                j <= m,
                m == out@.len(),
                forall|k: int| 0 <= k < j ==> out@[k] < x,
            decreases m - j,
        {
            j = j + 1;
        }
        let ghost pre = out@;
        out.insert(j, x);
        proof {
            lemma_insert_sorted_at(pre, x, j as int);
            assert(out@ =~= pre.subrange(0, j as int) + seq![x] + pre.subrange(
                j as int,
                pre.len() as int,
            ));
            lemma_insert_sorted_sorted(pre, x);
            assert(addrs@.subrange(0, i + 1).drop_last() =~= addrs@.subrange(0, i as int));
            assert(addrs@.subrange(0, i + 1).last() == addrs@[i as int]);
        }
        i = i + 1;
    }
    proof {
        assert(addrs@.subrange(0, n as int) =~= addrs@);
    }
    out
}

/// The scan bound for entry `i` of a sorted batch: the gap to the next
/// address, or a default span for the last entry, but never more than the
/// hard scan bound.
pub open spec fn bounded_gap(s: Seq<u64>, i: int) -> u64 {
    let gap = if i + 1 < s.len() {
        (s[i + 1] - s[i]) as u64
    } else {
        VTABLE_DEFAULT_LAST_SPAN
    };
    if gap > MAX_SCAN_BYTES {
        MAX_SCAN_BYTES
    } else {
        gap
    }
}

/// The parsed vtables of the sorted batch `s` from index `i` on, skipping
/// addresses whose header is implausible.
pub open spec fn vtables_from(
    mem: Seq<(u64, u64)>,
    regions: Seq<MemRegion>,
    s: Seq<u64>,
    i: nat,
) -> Seq<VtableInfoView>
    decreases s.len() - i,
{
    if i >= s.len() {
        Seq::empty()
    } else {
        let rest = vtables_from(mem, regions, s, i + 1);
        match parsed_vtable_spec(mem, regions, s[i as int], bounded_gap(s, i as int)) {
            Some(v) => seq![v] + rest,
            None => rest,
        }
    }
}

/// Parses a vtable at every given address, after sorting them ascending so
/// that each address's scan is bounded by its next neighbor (the last one
/// by a default span). Addresses whose header is implausible are skipped.
pub fn compute_vtable_sizes(
    mem: &MemorySnapshot,
    sections: &SectionTable,
    addrs: &Vec<u64>,
) -> (r: Vec<VtableInfo>)
    ensures
        infos_view(r@) == vtables_from(
            mem.slots@,
            sections.regions@,
            sort_spec(addrs@),
            0,
        ),
{
    let sorted = sort_addresses(addrs);
    let n = sorted.len();
    let mut out: Vec<VtableInfo> = Vec::new();
    let mut i: usize = 0;
    proof {
        assert(infos_view(out@) =~= Seq::<VtableInfoView>::empty());
    }
    while i < n
        invariant
            i <= n,
            n == sorted@.len(),
            sorted@ == sort_spec(addrs@),
            sorted_u64(sorted@),
            vtables_from(mem.slots@, sections.regions@, sorted@, 0) == infos_view(out@)
                + vtables_from(mem.slots@, sections.regions@, sorted@, i as nat),
        decreases n - i,
    {
        let addr = sorted[i];
        let max_size: u64 = if i + 1 < n {
            let gap = sorted[i + 1] - addr;
            if gap > MAX_SCAN_BYTES {
                MAX_SCAN_BYTES
            } else {
                gap
            }
        } else {
            VTABLE_DEFAULT_LAST_SPAN
        };
        proof {
            assert(max_size == bounded_gap(sorted@, i as int));
        }
        match parse_vtable(mem, sections, addr, max_size) {
            Some(info) => {
                let ghost pre = out@;
                out.push(info);
                proof {
                    assert(infos_view(out@) =~= infos_view(pre).push(info@));
                    assert(infos_view(pre) + (seq![info@] + vtables_from(
                        mem.slots@,
                        sections.regions@,
                        sorted@,
                        (i + 1) as nat,
                    )) =~= infos_view(out@) + vtables_from(
                        mem.slots@,
                        sections.regions@,
                        sorted@,
                        (i + 1) as nat,
                    ));
                }
            },
            None => {
            },
        }
        i = i + 1;
    }
    out
}

/// Whether `addr` looks like the start of a vtable: a plausible header
/// followed by at least one method pointer.
pub open spec fn vtable_candidate(
    mem: Seq<(u64, u64)>,
    regions: Seq<MemRegion>,
    addr: u64,
) -> bool {
    header_valid_spec(mem, regions, addr) && slot_is_method(mem, regions, addr, 0)
}

/// The candidate vtable addresses a sweep from `addr` (8-aligned) up to
/// `end` finds: a hit is recorded and skipped past its header, anything
/// else advances one pointer width.
pub open spec fn scan_candidates(
    mem: Seq<(u64, u64)>,
    regions: Seq<MemRegion>,
    addr: int,
    end: int,
) -> Seq<u64>
    decreases end - addr,
{
    if addr < 0 || addr + 24 > end {
        Seq::empty()
    } else if vtable_candidate(mem, regions, addr as u64) {
        seq![addr as u64] + scan_candidates(mem, regions, addr + 24, end)
    } else {
        scan_candidates(mem, regions, addr + 8, end)
    }
}

/// `start` rounded up to the next pointer-width boundary.
pub open spec fn align_up8(start: u64) -> int {
    if start % 8 == 0 {
        start as int
    } else {
        start + (8 - start % 8)
    }
}

/// Sweeps the range from `start` (rounded up to pointer alignment) to
/// `end` for addresses that look like valid vtable headers followed by at
/// least one method pointer. A hit is skipped past its header so that its
/// own fields are not reported as further candidates.
pub fn scan_for_vtables(
    mem: &MemorySnapshot,
    sections: &SectionTable,
    start: u64,
    end: u64,
) -> (r: Vec<u64>)
    ensures
        r@ == scan_candidates(mem.slots@, sections.regions@, align_up8(start), end as int),
{
    let mut out: Vec<u64> = Vec::new();
    let rem = start % 8;
    let mut addr: u64;
    if rem == 0 {
        addr = start;
    } else if start <= u64::MAX - (8 - rem) {
        addr = start + (8 - rem);
    } else {
        proof {
            assert(align_up_scan_is_empty(mem.slots@, sections.regions@, start, end));
        }
        return out;
    }
    proof {
        assert(addr as int == align_up8(start));
    }
    while end >= 24 && addr <= end - 24
        invariant
            addr as int >= align_up8(start) || addr == start,
            scan_candidates(mem.slots@, sections.regions@, align_up8(start), end as int) == out@
                + scan_candidates(mem.slots@, sections.regions@, addr as int, end as int),
        decreases end - addr,
    {
        let hit = if is_valid_vtable_header(mem, sections, addr) {
            match mem.read_u64(addr.wrapping_add(VTABLE_HEADER_SIZE)) {
                Some(first) => sections.is_code_pointer(first),
                None => false,
            }
        } else {
            false
        };
        proof {
            assert(addr.wrapping_add(VTABLE_HEADER_SIZE) == slot_addr(addr, 0));
            assert(hit == vtable_candidate(mem.slots@, sections.regions@, addr));
        }
        if hit {
            let ghost pre = out@;
            out.push(addr);
            proof {
                assert(pre + (seq![addr] + scan_candidates(
                    mem.slots@,
                    sections.regions@,
                    addr + 24,
                    end as int,
                )) =~= out@ + scan_candidates(
                    mem.slots@,
                    sections.regions@,
                    addr + 24,
                    end as int,
                ));
            }
            addr = addr + 24;
        } else {
            addr = addr + 8;
        }
    }
    proof {
        assert(scan_candidates(mem.slots@, sections.regions@, addr as int, end as int)
            =~= Seq::<u64>::empty());
    }
    out
}

/// Where rounding `start` up to alignment leaves the address space, the
/// sweep finds nothing.
spec fn align_up_scan_is_empty(
    mem: Seq<(u64, u64)>,
    regions: Seq<MemRegion>,
    start: u64,
    end: u64,
) -> bool {
    scan_candidates(mem, regions, align_up8(start), end as int) == Seq::<u64>::empty()
}

/// Sweeps a memory range for plausible vtables and parses each candidate,
/// its scan bounded by the next candidate: the static-image discovery
/// path, handed the range of a read-only data section by the caller.
pub fn find_vtables_in_range(
    mem: &MemorySnapshot,
    sections: &SectionTable,
    start: u64,
    end: u64,
) -> (r: Vec<VtableInfo>)
    ensures
        infos_view(r@) == vtables_from(
            mem.slots@,
            sections.regions@,
            sort_spec(
                scan_candidates(mem.slots@, sections.regions@, align_up8(start), end as int),
            ),
            0,
        ),
{
    let candidates = scan_for_vtables(mem, sections, start, end);
    compute_vtable_sizes(mem, sections, &candidates)
}

} // verus!
