use vstd::prelude::*;

verus! {

/// The seed a run uses: the configured one when it is given and not zero,
/// otherwise the clock reading cut down to its low 64 bits.
pub open spec fn resolved_seed(configured: Option<u64>, clock_nanos: u128) -> u64 {
    match configured {
        Some(s) if s != 0 => s,
        _ => (clock_nanos % 0x1_0000_0000_0000_0000) as u64,
    }
}

/// Picks the seed that both the jitter generator and the noise field are
/// built from. A missing or zero configured seed falls back to the clock.
pub fn resolve_seed(configured: Option<u64>, clock_nanos: u128) -> (r: u64)
    ensures
        r == resolved_seed(configured, clock_nanos),
{
    match configured {
        Some(s) if s != 0 => s,
        _ => (clock_nanos % 0x1_0000_0000_0000_0000u128) as u64,
    }
}

/// The noise field takes a 32-bit seed: the low half of the resolved one.
pub fn noise_seed(seed: u64) -> (r: u32)
    ensures
        r as int == seed as int % 0x1_0000_0000,
{
    (seed % 0x1_0000_0000u64) as u32
}

} // verus!
