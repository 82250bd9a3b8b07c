//! The flow selector: where much ground drains through is selected.
use crate::field::{Field, Layer, HEIGHT};
use crate::flow_selector::{accumulates, keyed, select_area, selects, AreaFns};
use crate::functions::{accepts_lists, keeps_lists, total1, total2, total3};
use crate::grid::Grid;
use crate::hydrology::fill::{fill_depressions, flooded};
use crate::hydrology::flats::labelling;
use crate::hydrology::resolve::{relief_math, resolve_flats, resolved, ReliefMath};
use crate::node::{float_param, port, Node, NodeSpec, ParamSpec, PortSpec};
use crate::shaping::{map_cells, relayered};
use vstd::prelude::*;

verus! {

/// Flow selector: one input, one output. Writes the selection to the height layer.
#[derive(Clone, Copy, Debug)]
pub struct FlowSelect;

/// What the node declares.
pub open spec fn flow_select_node() -> Node {
    Node {
        type_id: "modifier.flow"@,
        category: "selector"@,
        tags: Seq::empty(),
        inputs: seq![port("in"@)],
        outputs: seq![port("out"@)],
        params: seq![
            float_param("min"@, 0, 1_000_000, 300_000),
            float_param("max"@, 0, 1_000_000, 1_000_000),
            float_param("falloff"@, 0, 1_000_000, 150_000),
            float_param("concentration"@, 1_000_000, 6_000_000, 1_500_000),
        ],
        emitted_layers: Seq::empty(),
        mask_aware: false,
    }
}

impl FlowSelect {
    /// The node's declaration.
    pub fn spec(&self) -> (r: NodeSpec)
        ensures
            r@ == flow_select_node(),
            r@.defaults_admitted(),
    {
        let r: NodeSpec = NodeSpec {
            type_id: "modifier.flow",
            category: "selector",
            tags: Vec::new(),
            inputs: vec![PortSpec::new("in")],
            outputs: vec![PortSpec::new("out")],
            params: vec![
                ParamSpec::number("min", 0, 1_000_000, 300_000),
                ParamSpec::number("max", 0, 1_000_000, 1_000_000),
                ParamSpec::number("falloff", 0, 1_000_000, 150_000),
                ParamSpec::number("concentration", 1_000_000, 6_000_000, 1_500_000),
            ],
            emitted_layers: Vec::new(),
            mask_aware: false,
        };
        assert(r@ =~= flow_select_node());
        r
    }
}

/// The arithmetic of flat resolution, as executable functions.
pub struct FlatFns<U, B, L> {
    /// The upwind distance update.
    pub upwind: U,
    /// The distance across a diagonal.
    pub bridge: B,
    /// The elevation of a flat cell with its relief.
    pub relief: L,
}

/// The terrain is the bed, filled without a cap and with its flats resolved.
pub open spec fn conditioned<
    U: Fn(u32, u32) -> u32,
    B: Fn(u32) -> u32,
    L: Fn(i32, Option<(u32, u32)>, u32) -> i32,
>(bed: Seq<i32>, grid: Grid, f: FlatFns<U, B, L>, filled: Seq<i32>) -> bool {
    let flood = flooded(bed, Seq::new(bed.len(), |c: int| i32::MAX), grid);
    &&& filled.len() == grid.cells()
    &&& exists|label: Seq<usize>, count: usize| #[trigger]
        labelling(flood, grid, label, count) && forall|m: ReliefMath| #[trigger]
            relief_math(m, f.upwind, f.bridge, f.relief) ==> filled == resolved(
                flood,
                grid,
                label,
                m,
            )
}

impl FlowSelect {
    /// Selects by drainage: the input with every height replaced by `band` of the catchment there,
    /// after `normalize` stretched the catchments over their range. The pits are filled whole, so
    /// that flow routes everywhere. `key` gives a height its order key.
    pub fn eval<
        V: Copy,
        R: Copy,
        T: Fn(V) -> i32,
        U: Fn(u32, u32) -> u32,
        B: Fn(u32) -> u32,
        L: Fn(i32, Option<(u32, u32)>, u32) -> i32,
        W: Fn(i32, i32, bool) -> u32,
        P: Fn(u32, u32) -> u32,
        Q: Fn(u32, u32, u32) -> u32,
        F: Fn(&Vec<u32>) -> Vec<V>,
        K: Fn(V) -> V,
    >(
        input: &Field<V, R>,
        zero: V,
        key: &T,
        cell: u32,
        flats: &FlatFns<U, B, L>,
        area: &AreaFns<W, P, Q>,
        normalize: &F,
        band: &K,
    ) -> (r: Field<V, R>)
        requires
            input.wf(),
            input.layer_or_of(HEIGHT@, zero).cells.len() == input.width * input.height,
            total1(*key),
            total2(flats.upwind),
            total1(flats.bridge),
            total3(flats.relief),
            total3(area.weight),
            total2(area.plus),
            total3(area.part),
            accepts_lists(*normalize, (input.width * input.height) as nat),
            keeps_lists(*normalize, (input.width * input.height) as nat),
            total1(*band),
        ensures
            relayered(r, *input, HEIGHT@),
            exists|bed: Seq<i32>, filled: Seq<i32>, areas: Seq<u32>|
                {
                    &&& #[trigger] keyed(input.layer_or_of(HEIGHT@, zero).cells, *key, bed)
                    &&& #[trigger] conditioned(bed, (Grid { width: input.width, height: input.height }), *flats, filled)
                    &&& #[trigger] accumulates(filled, (Grid { width: input.width, height: input.height }), cell, *area, areas)
                    &&& selects(r.layers()[HEIGHT@].cells, areas, *normalize, *band)
                },
    {
        let grid: Grid = Grid { width: input.width, height: input.height };
        let h: Layer<V> = input.layer_or(HEIGHT, zero);
        let bed: Vec<i32> = map_cells(&h.cells, key);
        assert(keyed(input.layer_or_of(HEIGHT@, zero).cells, *key, bed@));
        let cap: Vec<i32> = vec![i32::MAX; bed.len()];
        assert(cap@ =~= Seq::new(bed@.len(), |c: int| i32::MAX));
        let flood: Vec<i32> = fill_depressions(bed.as_slice(), cap.as_slice(), &grid);
        let filled: Vec<i32> = resolve_flats(
            flood.as_slice(),
            &grid,
            &flats.upwind,
            &flats.bridge,
            &flats.relief,
        );
        assert(conditioned(bed@, grid, *flats, filled@));
        select_area(input, &filled, cell, area, normalize, band)
    }
}

} // verus!
