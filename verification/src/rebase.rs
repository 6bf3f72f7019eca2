//! Rebase resolution: one signed load bias per trace session, computed from
//! the statically-known entry address and the runtime entry address observed
//! at the first stop, and applied uniformly to every call-site address.

use vstd::prelude::*;

use vstd::wrapping::u64_specs;

verus! {

/// The uniform load bias of one trace session, stored as the
/// two's-complement difference `runtime_entry - static_entry`. Assumes a
/// single uniform bias for the whole image (no per-segment relocation).
#[derive(Clone, Copy, PartialEq, Eq, Structural, Debug)]
pub struct RebaseOffset {
    pub bias: u64,
}

/// The bias a session computes from its entry addresses: zero where the
/// runtime entry is unknown (zero) or equals the static entry, otherwise
/// the two's-complement difference `runtime_entry - static_entry`.
pub open spec fn bias_spec(static_entry: u64, runtime_entry: u64) -> u64 {
    if runtime_entry == 0 || runtime_entry == static_entry {
        0
    } else {
        u64_specs::wrapping_sub(runtime_entry, static_entry)
    }
}

/// The runtime address of a static address under bias `r`.
pub open spec fn translate_spec(r: RebaseOffset, addr: u64) -> u64 {
    u64_specs::wrapping_add(addr, r.bias)
}

/// The static address of a runtime address under bias `r`.
pub open spec fn translate_inverse_spec(r: RebaseOffset, addr: u64) -> u64 {
    u64_specs::wrapping_sub(addr, r.bias)
}

impl RebaseOffset {
    /// Computes the session bias, once, at the first post-launch stop. A
    /// runtime entry of zero means "not yet known" and yields no rebasing,
    /// as does a non-relocated image whose runtime entry equals its static
    /// entry.
    pub fn compute_offset(static_entry: u64, runtime_entry: u64) -> (r: RebaseOffset)
        ensures
            r.bias == bias_spec(static_entry, runtime_entry),
            runtime_entry != 0 ==> r.bias == u64_specs::wrapping_sub(runtime_entry, static_entry),
    {
        if runtime_entry == 0 || runtime_entry == static_entry {
            RebaseOffset { bias: 0 }
        } else {
            RebaseOffset { bias: runtime_entry.wrapping_sub(static_entry) }
        }
    }

    /// Maps a static call-site address to its runtime breakpoint address.
    pub fn translate(&self, addr: u64) -> (r: u64)
        ensures
            r == translate_spec(*self, addr),
    {
        addr.wrapping_add(self.bias)
    }

    /// Maps a runtime address back to its static address.
    pub fn translate_inverse(&self, addr: u64) -> (r: u64)
        ensures
            r == translate_inverse_spec(*self, addr),
    {
        addr.wrapping_sub(self.bias)
    }
}

/// For any fixed bias, the two translations are mutually inverse over the
/// whole address space: `translate(translate_inverse(addr)) == addr`, and
/// the other way round.
pub proof fn lemma_translate_round_trip(r: RebaseOffset, addr: u64)
    ensures
        translate_spec(r, translate_inverse_spec(r, addr)) == addr,
        translate_inverse_spec(r, translate_spec(r, addr)) == addr,
{
}

/// A zero bias translates every address to itself, in both directions.
pub proof fn lemma_translate_identity(r: RebaseOffset, addr: u64)
    requires
        r.bias == 0,
    ensures
        translate_spec(r, addr) == addr,
        translate_inverse_spec(r, addr) == addr,
{
}

/// Translation under a fixed bias maps distinct static addresses to
/// distinct runtime addresses, so breakpoint addresses stay in one-to-one
/// correspondence with call sites.
pub proof fn lemma_translate_injective(r: RebaseOffset, a1: u64, a2: u64)
    requires
        translate_spec(r, a1) == translate_spec(r, a2),
    ensures
        a1 == a2,
{
    lemma_translate_round_trip(r, translate_spec(r, a1));
    lemma_translate_round_trip(r, translate_spec(r, a2));
}

} // verus!
