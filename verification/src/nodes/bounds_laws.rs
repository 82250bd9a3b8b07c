//! How requested settings are held to their bounds.
use crate::brush::radius_of;
use crate::nodes::hydraulic::lifetime_of;
use crate::nodes::occlusion::{rays_of, reach_of};
use crate::nodes::polygon::sides_of;
use crate::nodes::stream::iterations_of;
use crate::nodes::thermal::{base_passes_of, passes_of};
use crate::noise::octaves_of;
use vstd::prelude::*;

verus! {

/// `r` is the number from `lo` to `hi` that is nearest to `asked`.
pub open spec fn nearest_within(asked: int, lo: int, hi: int, r: int) -> bool {
    &&& lo <= r <= hi
    &&& lo <= asked <= hi ==> r == asked
    &&& asked < lo ==> r == lo
    &&& asked > hi ==> r == hi
}

/// Counts are what was asked for, as near as their bounds allow.
pub proof fn law_counts_are_held_to_their_bounds(asked: int)
    ensures
        nearest_within(asked, 0, 32, octaves_of(asked)),
        nearest_within(asked, 1, 64, radius_of(asked)),
        nearest_within(asked, 4, 64, rays_of(asked)),
        nearest_within(asked, 0, 100_000, iterations_of(asked)),
        nearest_within(asked, 0, 100_000, base_passes_of(asked)),
        sides_of(asked) >= 3,
        asked >= 3 ==> sides_of(asked) == asked,
        lifetime_of(asked) >= 1,
        asked >= 1 ==> lifetime_of(asked) == asked,
{
}

/// A ray marches at least one cell and at most as many as the field is long.
pub proof fn law_reach_is_held_to_the_field(cells: int, width: int, height: int)
    requires
        width > 0 || height > 0,
        width >= 0,
        height >= 0,
    ensures
        nearest_within(
            cells,
            1,
            if width >= height {
                width
            } else {
                height
            },
            reach_of(cells, width, height),
        ),
{
}

/// Passes are run only where some were asked for: then what they scale to, and at least one.
pub proof fn law_passes_run_where_asked_for(base: int, scaled: int)
    ensures
        base <= 0 ==> passes_of(base, scaled) == 0,
        base > 0 ==> nearest_within(scaled, 1, 1_000_000, passes_of(base, scaled)),
{
}

} // verus!
