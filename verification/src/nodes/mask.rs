//! The mask node: a mask layer from the slope or the height.
use crate::field::{Field, Layer, Raster, HEIGHT, MASK};
use crate::functions::{total1, total2};
use crate::node::{enum_param, float_param, port, texts, Node, NodeSpec, ParamSpec, PortSpec};
use crate::shaping::{lemma_rastered_at, relayered, span_x, span_y, spans, value_at, value_or, Span};
use crate::text::same_text;
use vstd::prelude::*;

verus! {

/// Mask generator: one input, one output. Writes the mask layer.
#[derive(Clone, Copy, Debug)]
pub struct Mask;

/// What the node declares.
pub open spec fn mask_node() -> Node {
    Node {
        type_id: "modifier.mask"@,
        category: "selector"@,
        tags: seq!["mask"@, "slope"@, "select"@, "height"@, "modifier"@],
        inputs: seq![port("in"@)],
        outputs: seq![port("out"@)],
        params: seq![
            enum_param("mode"@, seq!["slope"@, "height"@], "slope"@),
            float_param("low"@, 0, 1_000_000, 0),
            float_param("high"@, 0, 1_000_000, 500_000),
        ],
        emitted_layers: Seq::empty(),
        mask_aware: false,
    }
}

impl Mask {
    /// The node's declaration.
    pub fn spec(&self) -> (r: NodeSpec)
        ensures
            r@ == mask_node(),
            r@.defaults_admitted(),
    {
        let options: Vec<&'static str> = vec!["slope", "height"];
        assert(texts(options@) =~= seq!["slope"@, "height"@]);
        assert(texts(options@)[0] == "slope"@);
        let r: NodeSpec = NodeSpec {
            type_id: "modifier.mask",
            category: "selector",
            tags: vec!["mask", "slope", "select", "height", "modifier"],
            inputs: vec![PortSpec::new("in")],
            outputs: vec![PortSpec::new("out")],
            params: vec![
                ParamSpec::choice("mode", options, "slope"),
                ParamSpec::number("low", 0, 1_000_000, 0),
                ParamSpec::number("high", 0, 1_000_000, 500_000),
            ],
            emitted_layers: Vec::new(),
            mask_aware: false,
        };
        assert(r@ =~= mask_node());
        r
    }
}

/// Whether the mask is of the slope, the default, rather than of the height.
pub open spec fn by_slope(mode: Option<&str>) -> bool {
    !(mode matches Some(m) && m@ == "height"@)
}

/// `v` is `step` of the height there, or of `slope` of the central differences there.
pub open spec fn masks<V, S: Fn(Span<V>, Span<V>) -> V, T: Fn(V) -> V>(
    h: Raster<V>,
    width: int,
    height: int,
    zero: V,
    sloping: bool,
    slope: S,
    step: T,
    x: int,
    y: int,
    v: V,
) -> bool {
    if sloping {
        exists|s: V|
            call_ensures(
                slope,
                (span_x(h, width, x, y, zero), span_y(h, height, x, y, zero)),
                s,
            ) && #[trigger] call_ensures(step, (s,), v)
    } else {
        call_ensures(step, (value_at(h, x, y, zero),), v)
    }
}

impl Mask {
    /// Gives the input a mask, from its slope or from its height.
    pub fn eval<V: Copy, R: Copy, S: Fn(Span<V>, Span<V>) -> V, T: Fn(V) -> V>(
        input: &Field<V, R>,
        zero: V,
        mode: Option<&str>,
        slope: &S,
        step: &T,
    ) -> (r: Field<V, R>)
        requires
            input.wf(),
            total2(*slope),
            total1(*step),
        ensures
            relayered(r, *input, MASK@),
            forall|x: int, y: int|
                0 <= x < input.width && 0 <= y < input.height ==> masks(
                    input.layer_or_of(HEIGHT@, zero),
                    input.width as int,
                    input.height as int,
                    zero,
                    by_slope(mode),
                    *slope,
                    *step,
                    x,
                    y,
                    (#[trigger] r.layers()[MASK@].at(x, y))->0,
                ),
    {
        let h: Layer<V> = input.layer_or(HEIGHT, zero);
        let (width, height): (usize, usize) = (input.width, input.height);
        let sloping: bool = match mode {
            Some(m) => !same_text(m, "height"),
            None => true,
        };
        let at = |x: usize, y: usize| -> (v: V)
            requires
                x < width,
                y < height,
            ensures
                masks(
                    h@,
                    width as int,
                    height as int,
                    zero,
                    sloping,
                    *slope,
                    *step,
                    x as int,
                    y as int,
                    v,
                ),
            {
                if sloping {
                    let (dx, dy): (Span<V>, Span<V>) = spans(&h, width, height, x, y, zero);
                    let s: V = slope(dx, dy);
                    step(s)
                } else {
                    step(value_or(&h, x, y, zero))
                }
            };
        let r: Field<V, R> = input.reshaped(MASK, &at);
        proof {
            assert forall|x: int, y: int| 0 <= x < input.width && 0 <= y < input.height implies masks(
                input.layer_or_of(HEIGHT@, zero),
                input.width as int,
                input.height as int,
                zero,
                by_slope(mode),
                *slope,
                *step,
                x,
                y,
                (#[trigger] r.layers()[MASK@].at(x, y))->0,
            ) by {
                lemma_rastered_at(r.layers()[MASK@], width, height, at, x, y);
            }
        }
        r
    }
}

} // verus!
