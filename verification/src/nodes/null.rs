//! The pass-through node.
use crate::field::Field;
use crate::node::{port, Node, NodeSpec, PortSpec};
use vstd::prelude::*;

verus! {

/// Null (pass-through) modifier: one input, one output, no parameters.
#[derive(Clone, Copy, Debug)]
pub struct Null;

/// What the node declares.
pub open spec fn null_node() -> Node {
    Node {
        type_id: "modifier.null"@,
        category: "utility"@,
        tags: Seq::empty(),
        inputs: seq![port("in"@)],
        outputs: seq![port("out"@)],
        params: Seq::empty(),
        emitted_layers: Seq::empty(),
        mask_aware: false,
    }
}

impl Null {
    /// The node's declaration.
    pub fn spec(&self) -> (r: NodeSpec)
        ensures
            r@ == null_node(),
            r@.defaults_admitted(),
    {
        let r: NodeSpec = NodeSpec {
            type_id: "modifier.null",
            category: "utility",
            tags: Vec::new(),
            inputs: vec![PortSpec::new("in")],
            outputs: vec![PortSpec::new("out")],
            params: Vec::new(),
            emitted_layers: Vec::new(),
            mask_aware: false,
        };
        assert(r@ =~= null_node());
        r
    }
}

impl Null {
    /// The input, unchanged: every layer, untouched.
    pub fn eval<V: Copy, R: Copy>(input: &Field<V, R>) -> (r: Field<V, R>)
        ensures
            r.width == input.width,
            r.height == input.height,
            r.region == input.region,
            r.layers() == input.layers(),
    {
        input.copy()
    }
}

} // verus!
