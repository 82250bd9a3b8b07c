//! The grow / shrink node: the boundary of a selection moved by a distance.
use crate::field::{Field, Layer, Raster, HEIGHT};
use crate::functions::{accepts_lists, keeps_lists, of_list, total1};
use crate::node::{port, unit_param, ContextDeps, Node, NodeSpec, ParamSpec, PortSpec, Unit};
use crate::shaping::{lemma_rastered_at, relayered, value_at, value_or};
use vstd::prelude::*;

verus! {

/// Grow / Shrink modifier: one input, one output.
#[derive(Clone, Copy, Debug)]
pub struct GrowShrink;

/// What the node declares.
pub open spec fn grow_node() -> Node {
    Node {
        type_id: "modifier.grow_shrink"@,
        category: "filter"@,
        tags: Seq::empty(),
        inputs: seq![port("in"@)],
        outputs: seq![port("out"@)],
        params: seq![
            unit_param("amount"@, -100_000_000_000, 100_000_000_000, 10_000_000, Unit::Meters),
            unit_param("softness"@, 0, 100_000_000_000, 4_000_000, Unit::Meters),
        ],
        emitted_layers: Seq::empty(),
        mask_aware: false,
    }
}

impl GrowShrink {
    /// The node's declaration.
    pub fn spec(&self) -> (r: NodeSpec)
        ensures
            r@ == grow_node(),
            r@.defaults_admitted(),
    {
        let r: NodeSpec = NodeSpec {
            type_id: "modifier.grow_shrink",
            category: "filter",
            tags: Vec::new(),
            inputs: vec![PortSpec::new("in")],
            outputs: vec![PortSpec::new("out")],
            params: vec![
                ParamSpec::number("amount", -100_000_000_000, 100_000_000_000, 10_000_000)
                    .with_unit(Unit::Meters),
                ParamSpec::number("softness", 0, 100_000_000_000, 4_000_000)
                    .with_unit(Unit::Meters),
            ],
            emitted_layers: Vec::new(),
            mask_aware: false,
        };
        assert(r@ =~= grow_node());
        r
    }

    /// Which world settings the node reads.
    pub fn context_deps(&self) -> (r: ContextDeps)
        ensures
            r == ContextDeps::WorldExtent,
    {
        ContextDeps::WorldExtent
    }
}

impl GrowShrink {
    /// Moves the boundary of the selection: every height replaced by `edge` of the signed distance
    /// there, which `signed` reads off the whole selection.
    pub fn eval<V: Copy, R: Copy, D: Fn(&Vec<V>) -> Vec<V>, E: Fn(V) -> V>(
        input: &Field<V, R>,
        zero: V,
        signed: &D,
        edge: &E,
    ) -> (r: Field<V, R>)
        requires
            input.wf(),
            accepts_lists(*signed, input.layer_or_of(HEIGHT@, zero).cells.len()),
            keeps_lists(*signed, input.layer_or_of(HEIGHT@, zero).cells.len()),
            total1(*edge),
        ensures
            relayered(r, *input, HEIGHT@),
            exists|d: Vec<V>| #[trigger]
                of_list(*signed, input.layer_or_of(HEIGHT@, zero).cells, d) && forall|
                    x: int,
                    y: int,
                |
                    0 <= x < input.width && 0 <= y < input.height ==> call_ensures(
                        *edge,
                        (
                            value_at(
                                Raster { cells: d@, ..input.layer_or_of(HEIGHT@, zero) },
                                x,
                                y,
                                zero,
                            ),
                        ),
                        (#[trigger] r.layers()[HEIGHT@].at(x, y))->0,
                    ),
    {
        let h: Layer<V> = input.layer_or(HEIGHT, zero);
        let ghost selection = h@;
        let d: Vec<V> = signed(&h.cells);
        let ghost distances = d;
        assert(of_list(*signed, selection.cells, distances));
        let away: Layer<V> = Layer { width: h.width, height: h.height, cells: d };
        assert(away@ == (Raster { cells: distances@, ..selection }));
        let at = |x: usize, y: usize| -> (v: V)
            ensures
                call_ensures(*edge, (value_at(away@, x as int, y as int, zero),), v),
            { edge(value_or(&away, x, y, zero)) };
        let r: Field<V, R> = input.reshaped(HEIGHT, &at);
        proof {
            assert forall|x: int, y: int|
                0 <= x < input.width && 0 <= y < input.height implies call_ensures(
                *edge,
                (value_at(Raster { cells: distances@, ..selection }, x, y, zero),),
                (#[trigger] r.layers()[HEIGHT@].at(x, y))->0,
            ) by {
                lemma_rastered_at(r.layers()[HEIGHT@], input.width, input.height, at, x, y);
            }
        }
        r
    }
}

} // verus!
