//! The frequency split: a height parted into a low and a high band.
use crate::erosion::changes;
use crate::field::{Field, Layer, HEIGHT};
use crate::functions::{accepts_lists, keeps_lists, of_list, total2};
use crate::node::{port, unit_param, ContextDeps, Node, NodeSpec, ParamSpec, PortSpec, Unit};
use crate::shaping::{relayered, with_heights};
use vstd::prelude::*;

verus! {

/// Frequency-band split: one input, two outputs (`low`, `high`).
#[derive(Clone, Copy, Debug)]
pub struct FrequencySplit;

/// What the node declares.
pub open spec fn frequency_split_node() -> Node {
    Node {
        type_id: "modifier.frequency_split"@,
        category: "filter"@,
        tags: Seq::empty(),
        inputs: seq![port("in"@)],
        outputs: seq![port("low"@), port("high"@)],
        params: seq![
            unit_param("radius"@, 0, 100_000_000_000, 64_000_000, Unit::Meters),
        ],
        emitted_layers: Seq::empty(),
        mask_aware: false,
    }
}

impl FrequencySplit {
    /// The node's declaration.
    pub fn spec(&self) -> (r: NodeSpec)
        ensures
            r@ == frequency_split_node(),
            r@.defaults_admitted(),
    {
        let r: NodeSpec = NodeSpec {
            type_id: "modifier.frequency_split",
            category: "filter",
            tags: Vec::new(),
            inputs: vec![PortSpec::new("in")],
            outputs: vec![PortSpec::new("low"), PortSpec::new("high")],
            params: vec![
                ParamSpec::number("radius", 0, 100_000_000_000, 64_000_000)
                    .with_unit(Unit::Meters),
            ],
            emitted_layers: Vec::new(),
            mask_aware: false,
        };
        assert(r@ =~= frequency_split_node());
        r
    }

    /// Which world settings the node reads.
    pub fn context_deps(&self) -> (r: ContextDeps)
        ensures
            r == ContextDeps::WorldExtent,
    {
        ContextDeps::WorldExtent
    }
}

impl FrequencySplit {
    /// Splits the height into what `blur` keeps and what is left of it: two fields, the low band
    /// and, cell by cell, `residue` of the height and its low band.
    pub fn eval<V: Copy, R: Copy, B: Fn(&Vec<V>) -> Vec<V>, D: Fn(V, V) -> V>(
        input: &Field<V, R>,
        zero: V,
        blur: &B,
        residue: &D,
    ) -> (r: (Field<V, R>, Field<V, R>))
        requires
            input.wf(),
            input.layer_or_of(HEIGHT@, zero).cells.len() == input.width * input.height,
            accepts_lists(*blur, (input.width * input.height) as nat),
            keeps_lists(*blur, (input.width * input.height) as nat),
            total2(*residue),
        ensures
            relayered(r.0, *input, HEIGHT@),
            relayered(r.1, *input, HEIGHT@),
            exists|low: Vec<V>|
                {
                    &&& #[trigger] of_list(*blur, input.layer_or_of(HEIGHT@, zero).cells, low)
                    &&& r.0.layers()[HEIGHT@].cells == low@
                    &&& forall|c: int|
                        0 <= c < low@.len() ==> call_ensures(
                            *residue,
                            (input.layer_or_of(HEIGHT@, zero).cells[c], low@[c]),
                            #[trigger] r.1.layers()[HEIGHT@].cells[c],
                        )
                },
    {
        let h: Layer<V> = input.layer_or(HEIGHT, zero);
        let low: Vec<V> = blur(&h.cells);
        let ghost kept = low;
        assert(of_list(*blur, h.cells@, kept));
        let high: Vec<V> = changes(&h.cells, &low, residue);
        (with_heights(input, low), with_heights(input, high))
    }
}

/// The two bands add up to the height again, where the residue is what is missing to it.
pub proof fn law_bands_recombine<V, R, D: Fn(V, V) -> V>(
    input: Field<V, R>,
    low: Field<V, R>,
    high: Field<V, R>,
    zero: V,
    residue: D,
    plus: spec_fn(V, V) -> V,
    c: int,
)
    requires
        call_ensures(
            residue,
            (
                input.layer_or_of(HEIGHT@, zero).cells[c],
                low.layers()[HEIGHT@].cells[c],
            ),
            high.layers()[HEIGHT@].cells[c],
        ),
        forall|h: V, l: V, d: V| #[trigger] call_ensures(residue, (h, l), d) ==> plus(l, d) == h,
    ensures
        plus(low.layers()[HEIGHT@].cells[c], high.layers()[HEIGHT@].cells[c])
            == input.layer_or_of(HEIGHT@, zero).cells[c],
{
}

} // verus!
