//! The height selector: an elevation band, or the elevation itself.
use crate::field::{Field, HEIGHT};
use crate::functions::total1;
use crate::node::{
    port, selection_port, unit_param, ContextDeps, Node, NodeSpec, ParamSpec, PortSpec, Unit,
};
use crate::selector::{is_measure, measures, output_param, selector_output};
use crate::shaping::{relayered, select, value_at};
use vstd::prelude::*;

verus! {

/// Height selector: one input, one output. Writes the band selection to
/// the height layer.
#[derive(Clone, Copy, Debug)]
pub struct Height;

/// What the node declares.
pub open spec fn height_node() -> Node {
    Node {
        type_id: "modifier.height"@,
        category: "selector"@,
        tags: Seq::empty(),
        inputs: seq![port("in"@)],
        outputs: seq![selection_port("out"@)],
        params: seq![
            unit_param("min"@, 0, 100_000_000_000, 100_000_000, Unit::Meters),
            unit_param("max"@, 0, 100_000_000_000, 180_000_000, Unit::Meters),
            unit_param("falloff"@, 0, 100_000_000_000, 25_000_000, Unit::Meters),
            selector_output(),
        ],
        emitted_layers: Seq::empty(),
        mask_aware: false,
    }
}

impl Height {
    /// The node's declaration.
    pub fn spec(&self) -> (r: NodeSpec)
        ensures
            r@ == height_node(),
            r@.defaults_admitted(),
    {
        let r: NodeSpec = NodeSpec {
            type_id: "modifier.height",
            category: "selector",
            tags: Vec::new(),
            inputs: vec![PortSpec::new("in")],
            outputs: vec![PortSpec::new("out").selection()],
            params: vec![
                ParamSpec::number("min", 0, 100_000_000_000, 100_000_000).with_unit(Unit::Meters),
                ParamSpec::number("max", 0, 100_000_000_000, 180_000_000).with_unit(Unit::Meters),
                ParamSpec::number("falloff", 0, 100_000_000_000, 25_000_000)
                    .with_unit(Unit::Meters),
                output_param(),
            ],
            emitted_layers: Vec::new(),
            mask_aware: false,
        };
        assert(seq!["selection"@, "measure"@][0] == "selection"@);
        assert(r@ =~= height_node());
        r
    }

    /// Which world settings the node reads.
    pub fn context_deps(&self) -> (r: ContextDeps)
        ensures
            r == ContextDeps::WorldHeight,
    {
        ContextDeps::WorldHeight
    }
}

impl Height {
    /// Selects by elevation: every height replaced by `band` of it, or kept where the node gives
    /// its measure.
    pub fn eval<V: Copy, R: Copy, F: Fn(V) -> V>(
        input: &Field<V, R>,
        zero: V,
        output: Option<&str>,
        band: &F,
    ) -> (r: Field<V, R>)
        requires
            input.wf(),
            total1(*band),
        ensures
            relayered(r, *input, HEIGHT@),
            forall|x: int, y: int|
                0 <= x < input.width && 0 <= y < input.height ==> {
                    let elevation = value_at(input.layer_or_of(HEIGHT@, zero), x, y, zero);
                    let out = (#[trigger] r.layers()[HEIGHT@].at(x, y))->0;
                    if measures(output) {
                        out == elevation
                    } else {
                        call_ensures(*band, (elevation,), out)
                    }
                },
    {
        let measure: bool = is_measure(output);
        let cell = |v: V| -> (o: V)
            ensures
                if measure {
                    o == v
                } else {
                    call_ensures(*band, (v,), o)
                },
            {
                if measure {
                    v
                } else {
                    band(v)
                }
            };
        select(input, zero, &cell)
    }
}

} // verus!
