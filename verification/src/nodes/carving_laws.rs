//! What streams and rivers do to a bed.
use crate::blur::blurred;
use crate::erosion::{changed, taps};
use crate::field::{Field, HEIGHT};
use crate::grid::Grid;
use crate::hydrology::drainage::Drainage;
use crate::hydrology::incise::{incised, largest, law_largest_area};
use crate::hydrology::incise_laws::{
    law_each_cell_is_drawn_by_its_own_area, settled_by_its_own_area,
};
use crate::hydrology::routing::drains_off;
use crate::nodes::rivers::{
    river_bed, river_carve, river_flow, river_outputs, CarveMath, RiverFns,
};
use crate::nodes::stream::{
    carved, evolution, iterated, stream_outputs, Course, OutputFns, Stage, StreamMath,
};
use crate::nodes::thermal::{eroded, TapFns};
use crate::talus::relaxed;
use vstd::prelude::*;

verus! {

/// `top` is the largest area, or the floor where no area is larger.
pub open spec fn is_top(area: Seq<u32>, floor: u32, top: u32) -> bool {
    &&& floor <= top
    &&& forall|i: int| 0 <= i < area.len() ==> #[trigger] area[i] <= top
    &&& top == floor || area.contains(top)
}

/// A stage follows another by way of a bed cut along a drainage of it: every cell drawn by its own
/// area beside the largest, and the walls relaxed in one pass where they relax at all.
pub open spec fn cuts_and_relaxes<A>(
    s: Stage,
    t: Stage,
    o: Course,
    m: StreamMath<A>,
    d: Drainage,
    cut: Seq<i32>,
    top: u32,
) -> bool {
    &&& d.wf(o.grid)
    &&& d.solves(s.z, o.grid, o.cell, m.drainage)
    &&& t.area == d.area@
    &&& is_top(d.area@, o.floor, top)
    &&& cut.len() == o.grid.cells()
    &&& forall|c: int|
        0 <= c < o.grid.cells() ==> settled_by_its_own_area(
            d,
            o.grid,
            top,
            m.lowered,
            s.z,
            cut,
            c,
        ) && 0 <= #[trigger] d.receivers.to@[c]
    &&& o.relaxing ==> t.z == relaxed(m.talus, cut, o.grid, 1)
    &&& !o.relaxing ==> t.z == cut
}

/// The largest area is the top.
proof fn lemma_top(area: Seq<u32>, floor: u32)
    ensures
        is_top(area, floor, largest(area, floor, area.len() as int)),
{
    law_largest_area(area, floor, area.len() as int);
    let top = largest(area, floor, area.len() as int);
    if top != floor {
        let i = choose|i: int| 0 <= i < area.len() && #[trigger] area[i] == top;
        assert(area.contains(top));
    }
}

/// An iteration solves the drainage of the terrain it finds, cuts every cell by its own catchment
/// beside the largest, and then relaxes the walls once, where the course says so.
pub proof fn law_iteration_cuts_and_then_relaxes<A>(
    s: Stage,
    t: Stage,
    o: Course,
    m: StreamMath<A>,
)
    requires
        o.grid.wf(),
        s.z.len() == o.grid.cells(),
        iterated(s, t, o, m),
    ensures
        exists|d: Drainage, cut: Seq<i32>, top: u32| #[trigger]
            cuts_and_relaxes(s, t, o, m, d, cut, top),
{
    let d = choose|d: Drainage|
        {
            &&& d.wf(o.grid)
            &&& #[trigger] d.solves(s.z, o.grid, o.cell, m.drainage)
            &&& t.area == d.area@
            &&& t.z == carved(s.z, d, o, m)
        };
    let top = largest(d.area@, o.floor, d.area@.len() as int);
    lemma_top(d.area@, o.floor);
    let cut = incised(d, o.grid, top, m.lowered, s.z, d.stack@.len() as int);
    assert forall|c: int| 0 <= c < o.grid.cells() implies settled_by_its_own_area(
        d,
        o.grid,
        top,
        m.lowered,
        s.z,
        cut,
        c,
    ) && 0 <= #[trigger] d.receivers.to@[c] by {
        law_each_cell_is_drawn_by_its_own_area(d, o.grid, top, m.lowered, s.z, c);
    }
    reveal_with_fuel(relaxed, 2);
    lemma_cut_len(d, o.grid, top, m.lowered, s.z, d.stack@.len() as int);
    assert(cuts_and_relaxes(s, t, o, m, d, cut, top));
}

/// Incision keeps the number of cells.
proof fn lemma_cut_len(
    d: Drainage,
    grid: Grid,
    top: u32,
    lowered: spec_fn((i32, i32), (u32, u32), bool) -> i32,
    z: Seq<i32>,
    i: int,
)
    requires
        d.wf(grid),
        z.len() == grid.cells(),
        0 <= i <= d.stack@.len(),
    ensures
        incised(d, grid, top, lowered, z, i).len() == z.len(),
    decreases i,
{
    if i > 0 {
        lemma_cut_len(d, grid, top, lowered, z, i - 1);
    }
}

/// An evolution starts at the bed with every catchment the area of a cell, and takes as many
/// iterations as it is asked for, each from where the one before left off.
pub proof fn law_evolution_iterates_from_the_bed<A>(
    stages: Seq<Stage>,
    bed: Seq<i32>,
    n: nat,
    o: Course,
    m: StreamMath<A>,
    i: int,
)
    requires
        evolution(stages, bed, n, o, m),
        0 <= i < n,
    ensures
        stages.len() == n + 1,
        stages[0].z == bed,
        forall|c: int| 0 <= c < bed.len() ==> #[trigger] stages[0].area[c] == o.cell,
        iterated(stages[i], stages[i + 1], o, m),
{
    assert(iterated(stages[i], stages[i + 1], o, m));
}

/// The fields of stream erosion in their order: the flow, what wore and what settled. Where the
/// terrain nowhere rose, and no rise settles nothing, the last is empty; where it nowhere sank, and
/// no sinking wears nothing, the one before.
pub proof fn law_stream_outputs_in_order<
    V,
    G,
    K: Fn(V) -> i32,
    F: Fn(i32, i32, V) -> V,
    M: Fn(&Vec<u32>) -> Vec<V>,
    E: Fn(i32, i32) -> V,
    D: Fn(i32, i32) -> V,
>(
    out: Seq<Field<V, G>>,
    input: Field<V, G>,
    mask: Option<&Field<V, G>>,
    one: V,
    bed: Seq<i32>,
    z: Seq<i32>,
    area: Seq<u32>,
    finish: OutputFns<K, F, M, E, D>,
    none: V,
    c: int,
)
    requires
        stream_outputs(out, input, mask, one, bed, z, area, finish),
        bed.len() == input.width * input.height,
        0 <= c < bed.len(),
        forall|b: i32, a: i32, v: V| #[trigger]
            call_ensures(finish.wear, (b, a), v) && a >= b ==> v == none,
        forall|b: i32, a: i32, v: V| #[trigger]
            call_ensures(finish.deposition, (b, a), v) && a <= b ==> v == none,
    ensures
        z[c] >= bed[c] ==> out[2].layers()[HEIGHT@].cells[c] == none,
        z[c] <= bed[c] ==> out[3].layers()[HEIGHT@].cells[c] == none,
{
    let (flow, wear, deposition) = choose|flow: Vec<V>, wear: Seq<V>, deposition: Seq<V>|
        {
            &&& #[trigger] crate::functions::of_list(finish.flow, area, flow)
            &&& taps(out[1], input.width, input.height, input.region, flow@)
            &&& #[trigger] taps(out[2], input.width, input.height, input.region, wear)
            &&& changed(wear, bed, z, finish.wear)
            &&& #[trigger] taps(out[3], input.width, input.height, input.region, deposition)
            &&& changed(deposition, bed, z, finish.deposition)
        };
    assert(call_ensures(finish.wear, (bed[c], z[c]), wear[c]));
    assert(call_ensures(finish.deposition, (bed[c], z[c]), deposition[c]));
}

/// Without smoothing every channel is as deep as its own catchment cuts: a cell that drains off the
/// grid is lowered by the cut of its own area beside the largest, and the river map holds that flow.
pub proof fn law_channel_is_cut_by_its_own_area<V>(
    bed: Seq<i32>,
    d: Drainage,
    grid: Grid,
    m: CarveMath<V>,
    top: u32,
    c: int,
)
    requires
        d.wf(grid),
        is_top(d.area@, 0, top),
        0 <= c < grid.cells(),
    ensures
        river_flow(d, m).len() == grid.cells(),
        river_flow(d, m)[c] == (m.flow)(d.area@[c], top),
        drains_off(d.receivers.to@, grid, c) ==> river_bed(bed, d, grid, 0, m)[c] == (m.lower)(
            bed[c],
            (m.cut)((m.flow)(d.area@[c], top)),
        ),
        !drains_off(d.receivers.to@, grid, c) ==> river_bed(bed, d, grid, 0, m)[c] == bed[c],
{
    lemma_top(d.area@, 0);
    let best = largest(d.area@, 0, d.area@.len() as int);
    if best != 0 {
        let i = choose|i: int| 0 <= i < d.area@.len() && d.area@[i] == best;
        assert(d.area@[i] <= top);
    }
    if top != 0 {
        let i = choose|i: int| 0 <= i < d.area@.len() && d.area@[i] == top;
        assert(d.area@[i] <= best);
    }
}

/// Smoothing blurs the carve twice over its radius, and the bed is lowered by the smoothed carve;
/// the carve that is blurred cuts nothing in the closed basins.
pub proof fn law_smoothed_carve_is_blurred_twice<V>(
    bed: Seq<i32>,
    d: Drainage,
    grid: Grid,
    radius: usize,
    m: CarveMath<V>,
    c: int,
)
    requires
        radius > 0,
        0 <= c < grid.cells(),
    ensures
        ({
            let plain = river_carve(d, grid, 0, m);
            let once = blurred(m.blur, plain, grid, radius as int, 1);
            let twice = blurred(m.blur, once, grid, radius as int, 1);
            &&& river_carve(d, grid, radius, m) == twice
            &&& plain.len() == grid.cells()
            &&& !drains_off(d.receivers.to@, grid, c) ==> plain[c] == m.blur.zero
            &&& drains_off(d.receivers.to@, grid, c) ==> plain[c] == (m.cut)(river_flow(d, m)[c])
            &&& drains_off(d.receivers.to@, grid, c) ==> river_bed(bed, d, grid, radius, m)[c] == (
            m.lower)(bed[c], twice[c])
        }),
{
    let plain = river_carve(d, grid, 0, m);
    crate::blur_laws::law_blur_passes_follow_one_another(m.blur, plain, grid, radius as int, 1, 1);
    assert((1 + 1) as nat == 2nat);
}

/// The fields of thermal erosion in their order: what wore, then what settled. Where a cell nowhere
/// sank, and no sinking wears nothing, nothing wore there; where it nowhere rose, nothing settled.
pub proof fn law_thermal_outputs_in_order<
    V: Copy,
    R: Copy,
    F: Fn(V, V, V) -> V,
    W: Fn(V, V) -> V,
    D: Fn(V, V) -> V,
>(
    out: Seq<Field<V, R>>,
    input: Field<V, R>,
    mask: Option<&Field<V, R>>,
    ends: (V, V),
    after: Seq<V>,
    f: TapFns<F, W, D>,
    worth: spec_fn(V) -> real,
    none: V,
    c: int,
)
    requires
        eroded(out, input, mask, ends, after, f),
        0 <= c < input.layer_or_of(HEIGHT@, ends.0).cells.len(),
        forall|b: V, a: V, v: V| #[trigger]
            call_ensures(f.wear, (b, a), v) && worth(a) >= worth(b) ==> v == none,
        forall|b: V, a: V, v: V| #[trigger]
            call_ensures(f.debris, (b, a), v) && worth(a) <= worth(b) ==> v == none,
    ensures
        out.len() == 3,
        worth(after[c]) >= worth(input.layer_or_of(HEIGHT@, ends.0).cells[c])
            ==> out[1].layers()[HEIGHT@].cells[c] == none,
        worth(after[c]) <= worth(input.layer_or_of(HEIGHT@, ends.0).cells[c])
            ==> out[2].layers()[HEIGHT@].cells[c] == none,
{
    let before = input.layer_or_of(HEIGHT@, ends.0).cells;
    let (wear, debris) = choose|wear: Seq<V>, debris: Seq<V>|
        {
            &&& #[trigger] taps(out[1], input.width, input.height, input.region, wear)
            &&& #[trigger] taps(out[2], input.width, input.height, input.region, debris)
            &&& changed(wear, before, after, f.wear)
            &&& changed(debris, before, after, f.debris)
        };
    assert(call_ensures(f.wear, (before[c], after[c]), wear[c]));
    assert(call_ensures(f.debris, (before[c], after[c]), debris[c]));
}

/// The fields of the rivers in their order: the flow, then what wore, which is told by the bed
/// before and after. Where a cell did not sink, and no sinking wears nothing, nothing wore there.
pub proof fn law_river_outputs_in_order<
    V,
    G,
    K: Fn(V) -> i32,
    F: Fn(i32, i32, V) -> V,
    E: Fn(i32, i32) -> V,
>(
    out: Seq<Field<V, G>>,
    input: Field<V, G>,
    mask: Option<&Field<V, G>>,
    one: V,
    bed: Seq<i32>,
    z: Seq<i32>,
    flow: Seq<V>,
    finish: RiverFns<K, F, E>,
    none: V,
    c: int,
)
    requires
        river_outputs(out, input, mask, one, bed, z, flow, finish),
        0 <= c < bed.len(),
        forall|b: i32, a: i32, v: V| #[trigger]
            call_ensures(finish.wear, (b, a), v) && a >= b ==> v == none,
    ensures
        out.len() == 3,
        out[1].layers()[HEIGHT@].cells == flow,
        z[c] >= bed[c] ==> out[2].layers()[HEIGHT@].cells[c] == none,
{
    let wear = choose|wear: Seq<V>|
        {
            &&& #[trigger] taps(out[2], input.width, input.height, input.region, wear)
            &&& changed(wear, bed, z, finish.wear)
        };
    assert(call_ensures(finish.wear, (bed[c], z[c]), wear[c]));
}

} // verus!
