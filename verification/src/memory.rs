//! Plain-value model of the address space a scan works against: a table of
//! memory regions with their semantics, and a snapshot of readable
//! pointer-sized slots.

use vstd::prelude::*;

verus! {

/// Classification of a memory region, as a loaded image's section table
/// reports it. A code pointer must land in read-only code.
#[derive(Clone, Copy, PartialEq, Eq, Structural, Debug)]
pub enum RegionSemantics {
    DefaultSemantics,
    ReadOnlyCode,
    ReadOnlyData,
    ReadWriteData,
    ExternalSemantics,
}

/// One region of the section table: base address, byte length, semantics.
#[derive(Clone, Copy, PartialEq, Eq, Structural, Debug)]
pub struct MemRegion {
    pub start: u64,
    pub size: u64,
    pub semantics: RegionSemantics,
}

/// Whether `addr` lies inside region `r` (base-inclusive, end-exclusive).
pub open spec fn region_contains(r: MemRegion, addr: u64) -> bool {
    r.start <= addr && addr < r.start + r.size
}

/// The verdict of the first region in the table that contains `addr`:
/// code if and only if that region is read-only code. An address outside
/// every known region is not code.
pub open spec fn classified_as_code(regions: Seq<MemRegion>, addr: u64) -> bool
    decreases regions.len(),
{
    if regions.len() == 0 {
        false
    } else if region_contains(regions[0], addr) {
        regions[0].semantics == RegionSemantics::ReadOnlyCode
    } else {
        classified_as_code(regions.drop_first(), addr)
    }
}

/// A code pointer is a non-null address whose containing region is
/// read-only code.
pub open spec fn is_code_pointer_spec(regions: Seq<MemRegion>, addr: u64) -> bool {
    addr != 0 && classified_as_code(regions, addr)
}

/// The section table of an image: an ordered list of regions. Lookups are
/// decided by the first region that contains the address.
pub struct SectionTable {
    pub regions: Vec<MemRegion>,
}

impl SectionTable {
    pub fn new() -> (t: SectionTable)
        ensures
            t.regions@.len() == 0,
    {
        SectionTable { regions: Vec::new() }
    }

    pub fn push_region(&mut self, r: MemRegion)
        ensures
            final(self).regions@ == old(self).regions@.push(r),
    {
        self.regions.push(r);
    }

    /// Decides whether `addr` denotes an instruction inside executable,
    /// non-writable memory. Conservative: a pointer outside every known
    /// region is rejected, and the null address is always rejected.
    pub fn is_code_pointer(&self, addr: u64) -> (r: bool)
        ensures
            r == is_code_pointer_spec(self.regions@, addr),
    {
        if addr == 0 {
            return false;
        }
        let n = self.regions.len();
        let mut i: usize = 0;
        proof {
            assert(self.regions@.subrange(0, n as int) =~= self.regions@);
        }
        while i < n
            invariant
                addr != 0,
                i <= n,
                n == self.regions@.len(),
                classified_as_code(self.regions@, addr) == classified_as_code(
                    self.regions@.subrange(i as int, n as int),
                    addr,
                ),
            decreases n - i,
        {
            let region = self.regions[i];
            proof {
                assert(self.regions@.subrange(i as int, n as int)[0] == region);
                assert(self.regions@.subrange(i as int, n as int).drop_first()
                    =~= self.regions@.subrange(i + 1, n as int));
            }
            if addr >= region.start && addr - region.start < region.size {
                proof {
                    assert(region_contains(region, addr));
                }
                return region.semantics == RegionSemantics::ReadOnlyCode;
            }
            proof {
                assert(!region_contains(region, addr));
            }
            i = i + 1;
        }
        proof {
            assert(self.regions@.subrange(n as int, n as int).len() == 0);
        }
        false
    }
}

/// What `slot_lookup` finds for `addr` in a snapshot: the value of the first
/// recorded slot with that address, or `None` where no slot was readable.
pub open spec fn slot_lookup(slots: Seq<(u64, u64)>, addr: u64) -> Option<u64>
    decreases slots.len(),
{
    if slots.len() == 0 {
        None
    } else if slots[0].0 == addr {
        Some(slots[0].1)
    } else {
        slot_lookup(slots.drop_first(), addr)
    }
}

/// A snapshot of readable memory, taken slot by slot: each entry is the
/// pointer-sized value read at an address. An address with no entry stands
/// for unmapped or unreadable memory; a read of it fails.
pub struct MemorySnapshot {
    pub slots: Vec<(u64, u64)>,
}

impl MemorySnapshot {
    pub fn new() -> (m: MemorySnapshot)
        ensures
            m.slots@.len() == 0,
    {
        MemorySnapshot { slots: Vec::new() }
    }

    pub fn push_slot(&mut self, addr: u64, value: u64)
        ensures
            final(self).slots@ == old(self).slots@.push((addr, value)),
    {
        self.slots.push((addr, value));
    }

    /// A fallible pointer-sized read: `Some` exactly where the snapshot
    /// holds a slot for `addr`.
    pub fn read_u64(&self, addr: u64) -> (r: Option<u64>)
        ensures
            r == slot_lookup(self.slots@, addr),
    {
        let n = self.slots.len();
        let mut i: usize = 0;
        proof {
            assert(self.slots@.subrange(0, n as int) =~= self.slots@);
        }
        while i < n
            invariant
                i <= n,
                n == self.slots@.len(),
                slot_lookup(self.slots@, addr) == slot_lookup(
                    self.slots@.subrange(i as int, n as int),
                    addr,
                ),
            decreases n - i,
        {
            let entry = self.slots[i];
            proof {
                assert(self.slots@.subrange(i as int, n as int)[0] == entry);
                assert(self.slots@.subrange(i as int, n as int).drop_first()
                    =~= self.slots@.subrange(i + 1, n as int));
            }
            if entry.0 == addr {
                return Some(entry.1);
            }
            i = i + 1;
        }
        proof {
            assert(self.slots@.subrange(n as int, n as int).len() == 0);
        }
        None
    }
}

} // verus!
