//! The water-simulation flow selector: water pools where the catchment is large, and there is
//! selected.
use crate::field::{Field, Layer, HEIGHT};
use crate::flow_selector::{select_flow, selects};
use crate::functions::{accepts_lists, keeps_lists, total1};
use crate::grid::Grid;
use crate::node::{float_param, int_param, port, Node, NodeSpec, ParamSpec, PortSpec};
use crate::shaping::relayered;
use crate::water_sim::{
    simulate_flow, simulated, water_math, water_total, Sided, WaterFns, WaterMath,
};
use vstd::prelude::*;

verus! {

/// Flow (Water Sim) selector: one input, one output. Writes the selection to the height layer.
#[derive(Clone, Copy, Debug)]
pub struct FlowWater;

/// What the node declares.
pub open spec fn flow_water_node() -> Node {
    Node {
        type_id: "modifier.flow_water"@,
        category: "selector"@,
        tags: Seq::empty(),
        inputs: seq![port("in"@)],
        outputs: seq![port("out"@)],
        params: seq![
            float_param("min"@, 0, 1_000_000, 300_000),
            float_param("max"@, 0, 1_000_000, 1_000_000),
            float_param("falloff"@, 0, 1_000_000, 150_000),
            float_param("rain"@, 100, 100_000, 10_000),
            float_param("evaporation"@, 0, 200_000, 20_000),
            int_param("iterations"@, 1, 5_000, 200),
        ],
        emitted_layers: Seq::empty(),
        mask_aware: false,
    }
}

impl FlowWater {
    /// The node's declaration.
    pub fn spec(&self) -> (r: NodeSpec)
        ensures
            r@ == flow_water_node(),
            r@.defaults_admitted(),
    {
        let r: NodeSpec = NodeSpec {
            type_id: "modifier.flow_water",
            category: "selector",
            tags: Vec::new(),
            inputs: vec![PortSpec::new("in")],
            outputs: vec![PortSpec::new("out")],
            params: vec![
                ParamSpec::number("min", 0, 1_000_000, 300_000),
                ParamSpec::number("max", 0, 1_000_000, 1_000_000),
                ParamSpec::number("falloff", 0, 1_000_000, 150_000),
                ParamSpec::number("rain", 100, 100_000, 10_000),
                ParamSpec::number("evaporation", 0, 200_000, 20_000),
                ParamSpec::integer("iterations", 1, 5_000, 200),
            ],
            emitted_layers: Vec::new(),
            mask_aware: false,
        };
        assert(r@ =~= flow_water_node());
        r
    }
}

/// The steps asked for; none below zero.
pub open spec fn steps_of(requested: int) -> int {
    if requested < 0 {
        0
    } else {
        requested
    }
}

impl FlowWater {
    /// The steps asked for; none below zero.
    pub fn steps(requested: i64) -> (r: u64)
        ensures
            r == steps_of(requested as int),
    {
        if requested < 0 {
            0
        } else {
            requested as u64
        }
    }

    /// Selects by simulated water: the input with every height replaced by `band` of the flow map
    /// there, after `normalize` stretched it over its range. `None` when cancelled.
    pub fn eval<
        V: Copy,
        R: Copy,
        N: Fn(V) -> V,
        L: Fn(V, V) -> V,
        I: Fn(V, V) -> V,
        P: Fn(V, V, V) -> V,
        C: Fn(Sided<V>, V) -> Sided<V>,
        D: Fn(V, Sided<V>, Sided<V>) -> V,
        T: Fn(V, V) -> V,
        F: Fn(&Vec<V>) -> Vec<V>,
        K: Fn(V) -> V,
        X: Fn() -> bool,
    >(
        input: &Field<V, R>,
        iterations: usize,
        f: &WaterFns<V, N, L, I, P, C, D, T>,
        normalize: &F,
        band: &K,
        cancelled: &X,
    ) -> (r: Option<Field<V, R>>)
        requires
            input.wf(),
            input.layer_or_of(HEIGHT@, f.zero).cells.len() == input.width * input.height,
            water_total(*f),
            accepts_lists(*normalize, (input.width * input.height) as nat),
            keeps_lists(*normalize, (input.width * input.height) as nat),
            total1(*band),
            call_requires(*cancelled, ()),
        ensures
            r is None ==> iterations > 0 && call_ensures(*cancelled, (), true),
            r is Some ==> iterations == 0 || call_ensures(*cancelled, (), false),
            r matches Some(out) ==> relayered(out, *input, HEIGHT@) && forall|
                m: WaterMath<V>,
            | #[trigger]
                water_math(m, *f) ==> selects(
                    out.layers()[HEIGHT@].cells,
                    simulated(
                        m,
                        input.layer_or_of(HEIGHT@, f.zero).cells,
                        (Grid { width: input.width, height: input.height }),
                        iterations as nat,
                    ).tally,
                    *normalize,
                    *band,
                ),
    {
        let grid: Grid = Grid { width: input.width, height: input.height };
        let bed: Layer<V> = input.layer_or(HEIGHT, f.zero);
        match simulate_flow(&bed.cells, &grid, iterations, f, cancelled) {
            Some(acc) => Some(select_flow(input, &acc, normalize, band)),
            None => None,
        }
    }
}

} // verus!
