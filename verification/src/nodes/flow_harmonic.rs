//! The harmonic flow selector: drainage over flats resolved by a harmonic potential.
use crate::field::{Field, Layer, HEIGHT};
use crate::flow_selector::{accumulates, keyed, select_area, selects, AreaFns};
use crate::functions::{accepts_lists, keeps_lists, of_list, total1, total2, total3};
use crate::grid::Grid;
use crate::hydrology::fill::{fill_depressions, flooded};
use crate::node::{float_param, port, Node, NodeSpec, ParamSpec, PortSpec};
use crate::shaping::{map_cells, relayered};
use vstd::prelude::*;

verus! {

/// Harmonic flow selector: one input, one output. Writes the selection to the height layer.
#[derive(Clone, Copy, Debug)]
pub struct FlowHarmonic;

/// What the node declares.
pub open spec fn flow_harmonic_node() -> Node {
    Node {
        type_id: "modifier.flow_harmonic"@,
        category: "selector"@,
        tags: Seq::empty(),
        inputs: seq![port("in"@)],
        outputs: seq![port("out"@)],
        params: seq![
            float_param("min"@, 0, 1_000_000, 300_000),
            float_param("max"@, 0, 1_000_000, 1_000_000),
            float_param("falloff"@, 0, 1_000_000, 150_000),
            float_param("concentration"@, 1_000_000, 6_000_000, 1_500_000),
            float_param("fill"@, 0, 1_000_000, 50_000),
        ],
        emitted_layers: Seq::empty(),
        mask_aware: false,
    }
}

impl FlowHarmonic {
    /// The node's declaration.
    pub fn spec(&self) -> (r: NodeSpec)
        ensures
            r@ == flow_harmonic_node(),
            r@.defaults_admitted(),
    {
        let r: NodeSpec = NodeSpec {
            type_id: "modifier.flow_harmonic",
            category: "selector",
            tags: Vec::new(),
            inputs: vec![PortSpec::new("in")],
            outputs: vec![PortSpec::new("out")],
            params: vec![
                ParamSpec::number("min", 0, 1_000_000, 300_000),
                ParamSpec::number("max", 0, 1_000_000, 1_000_000),
                ParamSpec::number("falloff", 0, 1_000_000, 150_000),
                ParamSpec::number("concentration", 1_000_000, 6_000_000, 1_500_000),
                ParamSpec::number("fill", 0, 1_000_000, 50_000),
            ],
            emitted_layers: Vec::new(),
            mask_aware: false,
        };
        assert(r@ =~= flow_harmonic_node());
        r
    }
}

impl FlowHarmonic {
    /// Selects by drainage: the input with every height replaced by `band` of the catchment there,
    /// after `normalize` stretched the catchments over their range. The pits are filled up to
    /// `cap`, and `resolve` gives their flats the harmonic potential they drain by. `key` gives a
    /// height its order key.
    pub fn eval<
        V: Copy,
        R: Copy,
        T: Fn(V) -> i32,
        C: Fn(i32) -> i32,
        L: Fn(&Vec<i32>) -> Vec<i32>,
        W: Fn(i32, i32, bool) -> u32,
        P: Fn(u32, u32) -> u32,
        Q: Fn(u32, u32, u32) -> u32,
        F: Fn(&Vec<u32>) -> Vec<V>,
        K: Fn(V) -> V,
    >(
        input: &Field<V, R>,
        zero: V,
        key: &T,
        cap: &C,
        resolve: &L,
        cell: u32,
        area: &AreaFns<W, P, Q>,
        normalize: &F,
        band: &K,
    ) -> (r: Field<V, R>)
        requires
            input.wf(),
            input.layer_or_of(HEIGHT@, zero).cells.len() == input.width * input.height,
            total1(*key),
            total1(*cap),
            accepts_lists(*resolve, (input.width * input.height) as nat),
            keeps_lists(*resolve, (input.width * input.height) as nat),
            total3(area.weight),
            total2(area.plus),
            total3(area.part),
            accepts_lists(*normalize, (input.width * input.height) as nat),
            keeps_lists(*normalize, (input.width * input.height) as nat),
            total1(*band),
        ensures
            relayered(r, *input, HEIGHT@),
            exists|bed: Seq<i32>, caps: Seq<i32>, filled: Vec<i32>, areas: Seq<u32>|
                {
                    &&& #[trigger] keyed(input.layer_or_of(HEIGHT@, zero).cells, *key, bed)
                    &&& #[trigger] keyed(bed, *cap, caps)
                    &&& #[trigger] of_list(*resolve, flooded(bed, caps, (Grid { width: input.width, height: input.height })), filled)
                    &&& #[trigger] accumulates(filled@, (Grid { width: input.width, height: input.height }), cell, *area, areas)
                    &&& selects(r.layers()[HEIGHT@].cells, areas, *normalize, *band)
                },
    {
        let grid: Grid = Grid { width: input.width, height: input.height };
        let h: Layer<V> = input.layer_or(HEIGHT, zero);
        let bed: Vec<i32> = map_cells(&h.cells, key);
        assert(keyed(input.layer_or_of(HEIGHT@, zero).cells, *key, bed@));
        let caps: Vec<i32> = map_cells(&bed, cap);
        assert(keyed(bed@, *cap, caps@));
        let flood: Vec<i32> = fill_depressions(bed.as_slice(), caps.as_slice(), &grid);
        let filled: Vec<i32> = resolve(&flood);
        assert(of_list(*resolve, flood@, filled));
        select_area(input, &filled, cell, area, normalize, band)
    }
}

} // verus!
