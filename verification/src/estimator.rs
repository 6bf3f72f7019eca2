//! Vtable boundary estimation: starting after a fixed three-slot header
//! (cleanup pointer, size, alignment), scan forward in pointer-sized strides
//! and count how many consecutive slots hold code pointers. An unreadable
//! slot ends the scan exactly like a non-code value, so the caller always
//! receives a (possibly zero) count rather than an error.

use vstd::prelude::*;

use crate::memory::MemRegion;
use crate::memory::MemorySnapshot;
use crate::memory::SectionTable;
use crate::memory::is_code_pointer_spec;
use crate::memory::slot_lookup;

verus! {

/// Size in bytes of the vtable header that precedes the method pointers:
/// a cleanup-pointer slot, a size field and an alignment field, each
/// pointer-width.
pub const VTABLE_HEADER_SIZE: u64 = 24;

/// Hard bound on how many bytes one boundary scan may cover (the header
/// plus 65536 pointer-sized slots). Every caller must pass a scan limit at
/// or below this bound, so that a scan over attacker-influenced memory
/// cannot run without limit.
pub const MAX_SCAN_BYTES: u64 = 524312;

/// Upper sanity bound on the size field of a plausible vtable header.
pub const VTABLE_MAX_TYPE_SIZE: u64 = 0x100000;

/// Upper sanity bound on the alignment field of a plausible vtable header.
pub const VTABLE_MAX_ALIGN: u64 = 4096;

/// Address `byte_off` bytes past `base`, with the address space wrapping
/// around at the pointer width.
pub open spec fn rel_addr(base: u64, byte_off: u64) -> u64 {
    vstd::wrapping::u64_specs::wrapping_add(base, byte_off)
}

/// Address of method slot `k` of a vtable at `base`: just past the header,
/// in pointer-width strides.
pub open spec fn slot_addr(base: u64, k: nat) -> u64 {
    rel_addr(base, (VTABLE_HEADER_SIZE + 8 * k) as u64)
}

/// Whether method slot `k` of the vtable at `base` is readable in the
/// snapshot and holds a code pointer.
pub open spec fn slot_is_method(
    mem: Seq<(u64, u64)>,
    regions: Seq<MemRegion>,
    base: u64,
    k: nat,
) -> bool {
    match slot_lookup(mem, slot_addr(base, k)) {
        Some(v) => is_code_pointer_spec(regions, v),
        None => false,
    }
}

/// Length of the run of consecutive method slots starting at slot `k`,
/// looking at most `n` slots ahead.
pub open spec fn run_len(
    mem: Seq<(u64, u64)>,
    regions: Seq<MemRegion>,
    base: u64,
    k: nat,
    n: nat,
) -> nat
    decreases n,
{
    if n == 0 {
        0
    } else if slot_is_method(mem, regions, base, k) {
        1 + run_len(mem, regions, base, k + 1, (n - 1) as nat)
    } else {
        0
    }
}

/// How many method slots a scan bounded by `max_scan_bytes` may look at:
/// the offsets `VTABLE_HEADER_SIZE + 8 * k` strictly below the bound.
pub open spec fn num_slots(max_scan_bytes: u64) -> nat {
    if max_scan_bytes <= VTABLE_HEADER_SIZE {
        0
    } else {
        ((max_scan_bytes - VTABLE_HEADER_SIZE + 7) / 8) as nat
    }
}

/// The estimated method count of the vtable at `base`: the length of the
/// run of consecutive code-pointer slots after the header, capped by the
/// scan bound.
pub open spec fn method_count_spec(
    mem: Seq<(u64, u64)>,
    regions: Seq<MemRegion>,
    base: u64,
    max_scan_bytes: u64,
) -> nat {
    run_len(mem, regions, base, 0, num_slots(max_scan_bytes))
}

/// Scans forward from the header of the vtable at `base` and returns how
/// many consecutive slots hold code pointers. The scan ends at the first
/// slot that is unreadable or whose value is not a code pointer, or when
/// the byte bound `max_scan_bytes` is reached.
pub fn estimate_method_count(
    mem: &MemorySnapshot,
    sections: &SectionTable,
    base: u64,
    max_scan_bytes: u64,
) -> (count: u64)
    requires
        max_scan_bytes <= MAX_SCAN_BYTES,
    ensures
        count as nat == method_count_spec(mem.slots@, sections.regions@, base, max_scan_bytes),
        count as nat <= num_slots(max_scan_bytes),
{
    if max_scan_bytes <= VTABLE_HEADER_SIZE {
        return 0;
    }
    let n: u64 = (max_scan_bytes - VTABLE_HEADER_SIZE + 7) / 8;
    let mut k: u64 = 0;
    while k < n
        invariant
            k <= n,
            n <= 65536,
            n as nat == num_slots(max_scan_bytes),
            run_len(mem.slots@, sections.regions@, base, 0, n as nat) == k as nat + run_len(
                mem.slots@,
                sections.regions@,
                base,
                k as nat,
                (n - k) as nat,
            ),
        decreases n - k,
    {
        let off: u64 = VTABLE_HEADER_SIZE + 8 * k;
        let addr = base.wrapping_add(off);
        proof {
            assert(addr == slot_addr(base, k as nat));
        }
        let ok = match mem.read_u64(addr) {
            Some(v) => sections.is_code_pointer(v),
            None => false,
        };
        proof {
            assert(ok == slot_is_method(mem.slots@, sections.regions@, base, k as nat));
        }
        if !ok {
            return k;
        }
        k = k + 1;
    }
    k
}

/// Exactness of the boundary scan: when the `m` slots after the header all
/// hold code pointers and slot `m` does not (or is unreadable), the
/// estimate is exactly `m`, whatever lies beyond slot `m`.
proof fn lemma_run_determined_by_prefix(
    mem: Seq<(u64, u64)>,
    regions: Seq<MemRegion>,
    base: u64,
    k: nat,
    n: nat,
    m: nat,
)
    requires
        m < n,
        forall|j: nat| k <= j < k + m ==> slot_is_method(mem, regions, base, j),
        !slot_is_method(mem, regions, base, k + m),
    ensures
        run_len(mem, regions, base, k, n) == m,
    decreases m,
{
    if m == 0 {
        assert(!slot_is_method(mem, regions, base, k));
    } else {
        assert(slot_is_method(mem, regions, base, k));
        assert((k + 1) + (m - 1) == k + m);
        lemma_run_determined_by_prefix(mem, regions, base, k + 1, (n - 1) as nat, (m - 1) as nat);
    }
}

/// The estimator is determined by the prefix it accepts: a base pointer
/// whose memory holds `m` valid code pointers after the header, followed by
/// one slot that is unreadable or not code, is estimated at exactly `m`
/// methods, regardless of what lies beyond that slot.
pub proof fn lemma_estimate_exact_prefix(
    mem: Seq<(u64, u64)>,
    regions: Seq<MemRegion>,
    base: u64,
    max_scan_bytes: u64,
    m: nat,
)
    requires
        m < num_slots(max_scan_bytes),
        forall|j: nat| j < m ==> slot_is_method(mem, regions, base, j),
        !slot_is_method(mem, regions, base, m),
    ensures
        method_count_spec(mem, regions, base, max_scan_bytes) == m,
{
    lemma_run_determined_by_prefix(mem, regions, base, 0, num_slots(max_scan_bytes), m);
}

/// A vtable whose first slot after the header is not a code pointer (or is
/// unreadable) is estimated at zero methods.
pub proof fn lemma_estimate_zero(
    mem: Seq<(u64, u64)>,
    regions: Seq<MemRegion>,
    base: u64,
    max_scan_bytes: u64,
)
    requires
        !slot_is_method(mem, regions, base, 0),
    ensures
        method_count_spec(mem, regions, base, max_scan_bytes) == 0,
{
}

/// Whether `x` is a power of two.
pub open spec fn power_of_two(x: u64) -> bool {
    x != 0 && x & ((x - 1) as u64) == 0
}

/// Whether the three header slots at `addr` are readable and plausible:
/// the cleanup pointer null or code, the size below its sanity bound, the
/// alignment a nonzero power of two below its sanity bound.
pub open spec fn header_valid_spec(
    mem: Seq<(u64, u64)>,
    regions: Seq<MemRegion>,
    addr: u64,
) -> bool {
    match (
        slot_lookup(mem, addr),
        slot_lookup(mem, rel_addr(addr, 8)),
        slot_lookup(mem, rel_addr(addr, 16)),
    ) {
        (Some(cleanup), Some(size), Some(align)) => (cleanup == 0 || is_code_pointer_spec(
            regions,
            cleanup,
        )) && size <= VTABLE_MAX_TYPE_SIZE && align <= VTABLE_MAX_ALIGN && power_of_two(align),
        _ => false,
    }
}

/// Checks whether `addr` could be a valid vtable header. Any failure means
/// the address is not treated as a plausible vtable at all, independent of
/// method-pointer scanning.
pub fn is_valid_vtable_header(
    mem: &MemorySnapshot,
    sections: &SectionTable,
    addr: u64,
) -> (r: bool)
    ensures
        r == header_valid_spec(mem.slots@, sections.regions@, addr),
{
    let cleanup = match mem.read_u64(addr) {
        Some(v) => v,
        None => {
            return false;
        },
    };
    let size = match mem.read_u64(addr.wrapping_add(8)) {
        Some(v) => v,
        None => {
            return false;
        },
    };
    let align = match mem.read_u64(addr.wrapping_add(16)) {
        Some(v) => v,
        None => {
            return false;
        },
    };
    if cleanup != 0 && !sections.is_code_pointer(cleanup) {
        return false;
    }
    if size > VTABLE_MAX_TYPE_SIZE {
        return false;
    }
    if align == 0 || align > VTABLE_MAX_ALIGN || align & (align - 1) != 0 {
        return false;
    }
    true
}

} // verus!
