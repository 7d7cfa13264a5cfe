//! The sampling budget of the integrator along one path.
use vstd::prelude::*;

verus! {

/// Deepest bounce that is still traced; a ray deeper than this returns black.
pub const MAX_DEPTH: usize = 2;

/// Indirect samples drawn at a primary hit.
pub const INDIRECT_RAYS: usize = 12;

/// `count` halved `depth` times, rounding down.
pub open spec fn halved(count: nat, depth: nat) -> nat
    decreases depth,
{
    if depth == 0 {
        count
    } else {
        halved(count, (depth - 1) as nat) / 2
    }
}

/// Whether a ray `depth` bounces deep is traced at all.
pub fn traces_at(depth: usize) -> (r: bool)
    ensures
        r == (depth <= MAX_DEPTH),
{
    depth <= MAX_DEPTH
}

/// Number of indirect samples drawn at a hit `depth` bounces deep: the
/// primary budget halved once per bounce, and none past `MAX_DEPTH`.
pub fn indirect_samples(depth: usize) -> (r: usize)
    ensures
        depth > MAX_DEPTH ==> r == 0,
        depth <= MAX_DEPTH ==> r == halved(INDIRECT_RAYS as nat, depth as nat),
        depth <= MAX_DEPTH ==> r >= 1,
{
    if depth > MAX_DEPTH {
        return 0;
    }
    let mut count: usize = INDIRECT_RAYS;
    let mut d: usize = 0;
    while d < depth
        invariant
            d <= depth <= MAX_DEPTH,
            count == halved(INDIRECT_RAYS as nat, d as nat),
        decreases depth - d,
    {
        count = count / 2;
        d = d + 1;
    }
    assert(halved(12, 0) == 12);
    assert(halved(12, 1) == 6);
    assert(halved(12, 2) == 3);
    count
}

} // verus!
