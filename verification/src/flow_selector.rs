//! What the flow selectors share: a flow map, stretched over its range and band-selected.
use crate::field::{Field, HEIGHT};
use crate::functions::{accepts_lists, keeps_lists, of_list, total1, total2, total3};
use crate::grid::Grid;
use crate::hydrology::area::{accumulated, area_math, drainage_area_mfd, sorted_range, AreaMath};
use crate::shaping::{map_cells, relayered, with_heights};
use vstd::prelude::*;

verus! {

/// Every value of `out` is `band` of the flow there.
pub open spec fn banded<V, K: Fn(V) -> V>(out: Seq<V>, flow: Seq<V>, band: K) -> bool {
    &&& out.len() == flow.len()
    &&& forall|c: int| 0 <= c < out.len() ==> call_ensures(band, (flow[c],), #[trigger] out[c])
}

/// Every value of `out` is `band` of the flow map `acc` there, after `normalize` stretched it over
/// its range.
pub open spec fn selects<T, V, F: Fn(&Vec<T>) -> Vec<V>, K: Fn(V) -> V>(
    out: Seq<V>,
    acc: Seq<T>,
    normalize: F,
    band: K,
) -> bool {
    exists|flow: Vec<V>| #[trigger] of_list(normalize, acc, flow) && banded(out, flow@, band)
}

/// The input with every height replaced by `band` of the flow there, after `normalize` stretched
/// the flow map over its range.
pub fn select_flow<T, V: Copy, R: Copy, F: Fn(&Vec<T>) -> Vec<V>, K: Fn(V) -> V>(
    input: &Field<V, R>,
    acc: &Vec<T>,
    normalize: &F,
    band: &K,
) -> (r: Field<V, R>)
    requires
        input.wf(),
        acc@.len() == input.width * input.height,
        accepts_lists(*normalize, (input.width * input.height) as nat),
        keeps_lists(*normalize, (input.width * input.height) as nat),
        total1(*band),
    ensures
        relayered(r, *input, HEIGHT@),
        selects(r.layers()[HEIGHT@].cells, acc@, *normalize, *band),
{
    let flow: Vec<V> = normalize(acc);
    assert(of_list(*normalize, acc@, flow));
    let heights: Vec<V> = map_cells(&flow, band);
    assert(banded(heights@, flow@, *band));
    with_heights(input, heights)
}

/// The arithmetic of accumulation, as executable functions.
pub struct AreaFns<W, P, Q> {
    /// The weight of a descent.
    pub weight: W,
    /// The sum of two non-negative values.
    pub plus: P,
    /// The part of an area that a weight draws out of a total.
    pub part: Q,
}

/// The catchments `area` are those accumulated down the terrain.
pub open spec fn accumulates<
    W: Fn(i32, i32, bool) -> u32,
    P: Fn(u32, u32) -> u32,
    Q: Fn(u32, u32, u32) -> u32,
>(filled: Seq<i32>, grid: Grid, cell: u32, f: AreaFns<W, P, Q>, area: Seq<u32>) -> bool {
    forall|m: AreaMath, order: Seq<usize>| #[trigger]
        area_math(m, f.weight, f.plus, f.part) && #[trigger] sorted_range(
            filled,
            0,
            grid.cells() as int,
            order,
        ) ==> area == accumulated(filled, grid, m, cell, order, grid.cells() as int)
}

/// The input with every height replaced by `band` of the catchment there, after `normalize`
/// stretched the catchments over their range.
pub fn select_area<
    V: Copy,
    R: Copy,
    W: Fn(i32, i32, bool) -> u32,
    P: Fn(u32, u32) -> u32,
    Q: Fn(u32, u32, u32) -> u32,
    F: Fn(&Vec<u32>) -> Vec<V>,
    K: Fn(V) -> V,
>(
    input: &Field<V, R>,
    filled: &Vec<i32>,
    cell: u32,
    f: &AreaFns<W, P, Q>,
    normalize: &F,
    band: &K,
) -> (r: Field<V, R>)
    requires
        input.wf(),
        filled@.len() == input.width * input.height,
        total3(f.weight),
        total2(f.plus),
        total3(f.part),
        accepts_lists(*normalize, (input.width * input.height) as nat),
        keeps_lists(*normalize, (input.width * input.height) as nat),
        total1(*band),
    ensures
        relayered(r, *input, HEIGHT@),
        exists|area: Seq<u32>|
            {
                &&& #[trigger] accumulates(
                    filled@,
                    (Grid { width: input.width, height: input.height }),
                    cell,
                    *f,
                    area,
                )
                &&& selects(r.layers()[HEIGHT@].cells, area, *normalize, *band)
            },
{
    let grid: Grid = Grid { width: input.width, height: input.height };
    let area: Vec<u32> = drainage_area_mfd(
        filled.as_slice(),
        &grid,
        cell,
        &f.weight,
        &f.plus,
        &f.part,
    );
    assert(accumulates(filled@, grid, cell, *f, area@));
    select_flow(input, &area, normalize, band)
}

/// The order keys of a layer, cell by cell.
pub open spec fn keyed<V, T: Fn(V) -> i32>(heights: Seq<V>, key: T, keys: Seq<i32>) -> bool {
    &&& keys.len() == heights.len()
    &&& forall|c: int|
        0 <= c < keys.len() ==> call_ensures(key, (heights[c],), #[trigger] keys[c])
}

} // verus!
