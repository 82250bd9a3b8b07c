//! The raw 16-bit exporter.
use crate::node::{
    param, port, Kind, Node, NodeSpec, ParamKind, ParamSpec, ParamValue, PortSpec, Value,
};
use crate::nodes::export::{export_range, ExportPng, HeightRange};
use vstd::prelude::*;

verus! {

/// Writes the input field's `height` layer to a raw 16-bit little-endian `.r16` file
/// (Unreal's other native heightmap format). The sibling of the PNG exporter:
/// the same range mapping, just a headerless raw container. An endpoint by arity: one
/// input, no outputs, and never memoized, so the write happens on every pull.
#[derive(Clone, Copy, Debug)]
pub struct ExportR16;

/// What the node declares.
pub open spec fn export_r16_node() -> Node {
    Node {
        type_id: "endpoint.export_r16"@,
        category: "output"@,
        tags: Seq::empty(),
        inputs: seq![port("in"@)],
        outputs: Seq::empty(),
        params: seq![
            param("path"@, Kind::Text, Value::Text("out/heightmap.r16"@)),
            param("build"@, Kind::Bool, Value::Bool(true)),
            param("auto_range"@, Kind::Bool, Value::Bool(true)),
        ],
        emitted_layers: Seq::empty(),
        mask_aware: false,
    }
}

impl ExportR16 {
    /// The node's declaration.
    pub fn spec(&self) -> (r: NodeSpec)
        ensures
            r@ == export_r16_node(),
            r@.defaults_admitted(),
    {
        let r: NodeSpec = NodeSpec {
            type_id: "endpoint.export_r16",
            category: "output",
            tags: Vec::new(),
            inputs: vec![PortSpec::new("in")],
            outputs: Vec::new(),
            params: vec![
                ParamSpec::new("path", ParamKind::Text, ParamValue::Text("out/heightmap.r16")),
                ParamSpec::new("build", ParamKind::Bool, ParamValue::Bool(true)),
                ParamSpec::new("auto_range", ParamKind::Bool, ParamValue::Bool(true)),
            ],
            emitted_layers: Vec::new(),
            mask_aware: false,
        };
        assert(r@ =~= export_r16_node());
        r
    }
}

impl ExportR16 {
    /// The range the export maps from.
    pub fn range(auto_range: Option<bool>) -> (r: HeightRange)
        ensures
            r == export_range(auto_range),
    {
        ExportPng::range(auto_range)
    }
}

} // verus!
