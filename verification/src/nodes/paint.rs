//! The paint node: a hand-painted mask.
use crate::field::{Field, Layer, BACKDROP, HEIGHT};
use crate::node::{
    optional_port, param, port, ContextDeps, Kind, Node, NodeGroup, NodeSpec, ParamKind, ParamSpec,
    ParamValue, PortSpec, Value,
};
use crate::shaping::sized;
use crate::strokes::{
    base_at, composited, stroke_layer, strokes_math, strokes_total, StrokeFns, StrokeMath,
    StrokeMode,
};
use vstd::prelude::*;

verus! {

/// Paint generator: no inputs, one output. Writes the rasterized mask to the height layer.
#[derive(Clone, Copy, Debug)]
pub struct Paint;

/// What the node declares.
pub open spec fn paint_node() -> Node {
    Node {
        type_id: "generator.paint"@,
        category: "generator"@,
        tags: Seq::empty(),
        inputs: seq![optional_port("backdrop"@), optional_port("mask"@)],
        outputs: seq![port("out"@)],
        params: seq![param("strokes"@, Kind::Strokes, Value::Strokes)],
        emitted_layers: Seq::empty(),
        mask_aware: false,
    }
}

impl Paint {
    /// The node's declaration.
    pub fn spec(&self) -> (r: NodeSpec)
        ensures
            r@ == paint_node(),
            r@.defaults_admitted(),
    {
        let r: NodeSpec = NodeSpec {
            type_id: "generator.paint",
            category: "generator",
            tags: Vec::new(),
            inputs: vec![
                PortSpec::optional("backdrop"),
                PortSpec::optional("mask"),
            ],
            outputs: vec![PortSpec::new("out")],
            params: vec![
                ParamSpec::new("strokes", ParamKind::Strokes, ParamValue::Strokes),
            ],
            emitted_layers: Vec::new(),
            mask_aware: false,
        };
        assert(r@ =~= paint_node());
        r
    }

    /// Which world settings the node reads.
    pub fn context_deps(&self) -> (r: ContextDeps)
        ensures
            r == ContextDeps::NoWorld,
    {
        ContextDeps::NoWorld
    }

    /// The node's place in the palette.
    pub fn group(&self) -> (r: NodeGroup)
        ensures
            r.group@ == "source"@,
            r.sort == 52,
    {
        NodeGroup { group: "source", sort: 52 }
    }
}

impl Paint {
    /// Paints a mask: the strokes composited onto the base mask, or onto a blank one. The height of
    /// the backdrop rides along on a layer of its own.
    pub fn eval<
        V: Copy,
        R: Copy,
        A: Copy,
        B: Fn(V) -> V,
        C: Fn(usize, usize, usize) -> Option<A>,
        P: Fn(V, A) -> V,
        E: Fn(V, A) -> V,
        F: Fn(V) -> V,
    >(
        size: (usize, usize),
        region: R,
        backdrop: Option<&Field<V, R>>,
        base: Option<&Field<V, R>>,
        zero: V,
        f: &StrokeFns<B, C, P, E, F>,
        modes: &Vec<StrokeMode>,
    ) -> (r: Field<V, R>)
        requires
            size.0 * size.1 <= usize::MAX,
            backdrop matches Some(b) ==> b.wf(),
            base matches Some(b) ==> b.wf(),
            strokes_total(*f),
        ensures
            r.wf(),
            r.width == size.0,
            r.height == size.1,
            r.region == region,
            r.layers().contains_key(HEIGHT@),
            sized(r.layers()[HEIGHT@], size.0, size.1),
            backdrop is None ==> r.layers().dom() == set![HEIGHT@],
            backdrop matches Some(b) ==> r.layers().dom() == set![HEIGHT@, BACKDROP@]
                && r.layers()[BACKDROP@] == b.layer_or_of(HEIGHT@, zero),
            forall|m: StrokeMath<V, A>, x: int, y: int|
                #![trigger strokes_math(m, *f), r.layers()[HEIGHT@].at(x, y)]
                strokes_math(m, *f) && 0 <= x < size.0 && 0 <= y < size.1
                    ==> r.layers()[HEIGHT@].at(x, y) == Some(
                    composited(m, modes@, base_at(base, zero, x, y), x as usize, y as usize),
                ),
    {
        let under: Option<Layer<V>> = match base {
            Some(b) => Some(b.layer_or(HEIGHT, zero)),
            None => None,
        };
        let from: Option<&Layer<V>> = match &under {
            Some(l) => Some(l),
            None => None,
        };
        let layer: Layer<V> = stroke_layer(f, modes, from, zero, size.0, size.1);
        let ghost painted = layer@;
        let mut out: Field<V, R> = Field::new(size.0, size.1, region);
        out.set_layer(HEIGHT, layer);
        proof {
            assert forall|m: StrokeMath<V, A>, x: int, y: int|
                #![trigger strokes_math(m, *f), painted.at(x, y)]
                strokes_math(m, *f) && 0 <= x < size.0 && 0 <= y < size.1 implies painted.at(x, y)
                == Some(
                composited(m, modes@, base_at(base, zero, x, y), x as usize, y as usize),
            ) by {}
            reveal_strlit("height");
            reveal_strlit("backdrop");
            assert(HEIGHT@.len() != BACKDROP@.len());
        }
        match backdrop {
            Some(b) => {
                out.set_layer(BACKDROP, b.layer_or(HEIGHT, zero));
                assert(out.layers().dom() =~= set![HEIGHT@, BACKDROP@]);
            },
            None => {
                assert(out.layers().dom() =~= set![HEIGHT@]);
            },
        }
        assert(out.layers()[HEIGHT@] == painted);
        out
    }
}

} // verus!
