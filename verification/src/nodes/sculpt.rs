//! The sculpt node: a hand-painted change of height.
use crate::field::{Field, Layer, HEIGHT};
use crate::node::{
    optional_port, param, port, ContextDeps, Kind, Node, NodeSpec, ParamKind, ParamSpec,
    ParamValue, PortSpec, Value,
};
use crate::shaping::{relayered, sized};
use crate::strokes::{
    base_at, composited, stroke_layer, strokes_math, strokes_total, StrokeFns, StrokeMath,
    StrokeMode,
};
use vstd::prelude::*;

verus! {

/// Sculpt modifier: an optional base input, one output. Adds a hand-painted signed height offset to
/// the height layer.
#[derive(Clone, Copy, Debug)]
pub struct Sculpt;

/// What the node declares.
pub open spec fn sculpt_node() -> Node {
    Node {
        type_id: "modifier.sculpt"@,
        category: "adjust"@,
        tags: Seq::empty(),
        inputs: seq![optional_port("in"@)],
        outputs: seq![port("out"@)],
        params: seq![param("strokes"@, Kind::Strokes, Value::Strokes)],
        emitted_layers: Seq::empty(),
        mask_aware: false,
    }
}

impl Sculpt {
    /// The node's declaration.
    pub fn spec(&self) -> (r: NodeSpec)
        ensures
            r@ == sculpt_node(),
            r@.defaults_admitted(),
    {
        let r: NodeSpec = NodeSpec {
            type_id: "modifier.sculpt",
            category: "adjust",
            tags: Vec::new(),
            inputs: vec![PortSpec::optional("in")],
            outputs: vec![PortSpec::new("out")],
            params: vec![
                ParamSpec::new("strokes", ParamKind::Strokes, ParamValue::Strokes),
            ],
            emitted_layers: Vec::new(),
            mask_aware: false,
        };
        assert(r@ =~= sculpt_node());
        r
    }

    /// Which world settings the node reads.
    pub fn context_deps(&self) -> (r: ContextDeps)
        ensures
            r == ContextDeps::NoWorld,
    {
        ContextDeps::NoWorld
    }
}

impl Sculpt {
    /// Sculpts the base: the strokes composited onto its height, at its own size, its other layers
    /// passing through; or onto flat ground of the size asked for.
    pub fn eval<
        V: Copy,
        R: Copy,
        A: Copy,
        B: Fn(V) -> V,
        C: Fn(usize, usize, usize) -> Option<A>,
        P: Fn(V, A) -> V,
        E: Fn(V, A) -> V,
        F: Fn(V) -> V,
    >(
        size: (usize, usize),
        region: R,
        base: Option<&Field<V, R>>,
        zero: V,
        f: &StrokeFns<B, C, P, E, F>,
        modes: &Vec<StrokeMode>,
    ) -> (r: Field<V, R>)
        requires
            size.0 * size.1 <= usize::MAX,
            base matches Some(b) ==> b.wf(),
            strokes_total(*f),
        ensures
            match base {
                Some(b) => relayered(r, *b, HEIGHT@),
                None => {
                    &&& r.wf() && r.width == size.0 && r.height == size.1 && r.region == region
                    &&& r.layers().dom() == set![HEIGHT@]
                    &&& sized(r.layers()[HEIGHT@], size.0, size.1)
                },
            },
            forall|m: StrokeMath<V, A>, x: int, y: int|
                #![trigger strokes_math(m, *f), r.layers()[HEIGHT@].at(x, y)]
                strokes_math(m, *f) && 0 <= x < r.width && 0 <= y < r.height
                    ==> r.layers()[HEIGHT@].at(x, y) == Some(
                    composited(m, modes@, base_at(base, zero, x, y), x as usize, y as usize),
                ),
    {
        let (width, height): (usize, usize) = match base {
            Some(b) => (b.width, b.height),
            None => size,
        };
        let under: Option<Layer<V>> = match base {
            Some(b) => Some(b.layer_or(HEIGHT, zero)),
            None => None,
        };
        let from: Option<&Layer<V>> = match &under {
            Some(l) => Some(l),
            None => None,
        };
        let layer: Layer<V> = stroke_layer(f, modes, from, zero, width, height);
        let ghost shaped = layer@;
        let mut out: Field<V, R> = match base {
            Some(b) => b.copy(),
            None => Field::new(width, height, region),
        };
        out.set_layer(HEIGHT, layer);
        proof {
            assert(out.layers()[HEIGHT@] == shaped);
            assert forall|m: StrokeMath<V, A>, x: int, y: int|
                #![trigger strokes_math(m, *f), out.layers()[HEIGHT@].at(x, y)]
                strokes_math(m, *f) && 0 <= x < out.width && 0 <= y < out.height implies
                out.layers()[HEIGHT@].at(x, y) == Some(
                composited(m, modes@, base_at(base, zero, x, y), x as usize, y as usize),
            ) by {
                assert(shaped.at(x, y) == out.layers()[HEIGHT@].at(x, y));
            }
            if base is None {
                assert(out.layers().dom() =~= set![HEIGHT@]);
            }
        }
        out
    }
}

} // verus!
