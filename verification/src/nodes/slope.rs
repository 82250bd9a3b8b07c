//! The slope selector: a band of slope angles.
use crate::field::{Field, Layer, HEIGHT};
use crate::functions::total2;
use crate::node::{port, unit_param, Node, NodeSpec, ParamSpec, PortSpec, Unit};
use crate::shaping::{lemma_rastered_at, relayered, span_x, span_y, spans, Span};
use vstd::prelude::*;

verus! {

/// Slope selector: one input, one output. Writes the band selection to
/// the height layer.
#[derive(Clone, Copy, Debug)]
pub struct Slope;

/// What the node declares.
pub open spec fn slope_node() -> Node {
    Node {
        type_id: "modifier.slope"@,
        category: "selector"@,
        tags: Seq::empty(),
        inputs: seq![port("in"@)],
        outputs: seq![port("out"@)],
        params: seq![
            unit_param("min"@, 0, 90_000_000, 20_000_000, Unit::Degrees),
            unit_param("max"@, 0, 90_000_000, 50_000_000, Unit::Degrees),
            unit_param("falloff"@, 0, 90_000_000, 10_000_000, Unit::Degrees),
        ],
        emitted_layers: Seq::empty(),
        mask_aware: false,
    }
}

impl Slope {
    /// The node's declaration.
    pub fn spec(&self) -> (r: NodeSpec)
        ensures
            r@ == slope_node(),
            r@.defaults_admitted(),
    {
        let r: NodeSpec = NodeSpec {
            type_id: "modifier.slope",
            category: "selector",
            tags: Vec::new(),
            inputs: vec![PortSpec::new("in")],
            outputs: vec![PortSpec::new("out")],
            params: vec![
                ParamSpec::number("min", 0, 90_000_000, 20_000_000).with_unit(Unit::Degrees),
                ParamSpec::number("max", 0, 90_000_000, 50_000_000).with_unit(Unit::Degrees),
                ParamSpec::number("falloff", 0, 90_000_000, 10_000_000).with_unit(Unit::Degrees),
            ],
            emitted_layers: Vec::new(),
            mask_aware: false,
        };
        assert(r@ =~= slope_node());
        r
    }
}

impl Slope {
    /// Selects by slope: every height replaced by `cell` of the central differences there.
    pub fn eval<V: Copy, R: Copy, F: Fn(Span<V>, Span<V>) -> V>(
        input: &Field<V, R>,
        zero: V,
        cell: &F,
    ) -> (r: Field<V, R>)
        requires
            input.wf(),
            total2(*cell),
        ensures
            relayered(r, *input, HEIGHT@),
            forall|x: int, y: int|
                0 <= x < input.width && 0 <= y < input.height ==> call_ensures(
                    *cell,
                    (
                        span_x(input.layer_or_of(HEIGHT@, zero), input.width as int, x, y, zero),
                        span_y(input.layer_or_of(HEIGHT@, zero), input.height as int, x, y, zero),
                    ),
                    (#[trigger] r.layers()[HEIGHT@].at(x, y))->0,
                ),
    {
        let h: Layer<V> = input.layer_or(HEIGHT, zero);
        let (width, height): (usize, usize) = (input.width, input.height);
        let at = |x: usize, y: usize| -> (v: V)
            requires
                x < width,
                y < height,
            ensures
                call_ensures(
                    *cell,
                    (
                        span_x(h@, width as int, x as int, y as int, zero),
                        span_y(h@, height as int, x as int, y as int, zero),
                    ),
                    v,
                ),
            {
                let (dx, dy): (Span<V>, Span<V>) = spans(&h, width, height, x, y, zero);
                cell(dx, dy)
            };
        let r: Field<V, R> = input.reshaped(HEIGHT, &at);
        proof {
            assert forall|x: int, y: int|
                0 <= x < input.width && 0 <= y < input.height implies call_ensures(
                *cell,
                (
                    span_x(input.layer_or_of(HEIGHT@, zero), input.width as int, x, y, zero),
                    span_y(input.layer_or_of(HEIGHT@, zero), input.height as int, x, y, zero),
                ),
                (#[trigger] r.layers()[HEIGHT@].at(x, y))->0,
            ) by {
                lemma_rastered_at(r.layers()[HEIGHT@], width, height, at, x, y);
            }
        }
        r
    }
}

} // verus!
