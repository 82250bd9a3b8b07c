//! The PNG exporter.
use crate::node::{
    param, port, Kind, Node, NodeSpec, ParamKind, ParamSpec, ParamValue, PortSpec, Value,
};
use vstd::prelude::*;

verus! {

/// Writes the input field's `height` layer to a 16-bit grayscale PNG. An endpoint
/// by arity: one input, no outputs. The evaluator does not memoize endpoints, so
/// the write happens on every pull.
#[derive(Clone, Copy, Debug)]
pub struct ExportPng;

/// What the node declares.
pub open spec fn export_node() -> Node {
    Node {
        type_id: "endpoint.export"@,
        category: "output"@,
        tags: Seq::empty(),
        inputs: seq![port("in"@)],
        outputs: Seq::empty(),
        params: seq![
            param("path"@, Kind::Text, Value::Text("out/heightmap.png"@)),
            param("build"@, Kind::Bool, Value::Bool(true)),
            param("auto_range"@, Kind::Bool, Value::Bool(true)),
        ],
        emitted_layers: Seq::empty(),
        mask_aware: false,
    }
}

impl ExportPng {
    /// The node's declaration.
    pub fn spec(&self) -> (r: NodeSpec)
        ensures
            r@ == export_node(),
            r@.defaults_admitted(),
    {
        let r: NodeSpec = NodeSpec {
            type_id: "endpoint.export",
            category: "output",
            tags: Vec::new(),
            inputs: vec![PortSpec::new("in")],
            outputs: Vec::new(),
            params: vec![
                ParamSpec::new("path", ParamKind::Text, ParamValue::Text("out/heightmap.png")),
                ParamSpec::new("build", ParamKind::Bool, ParamValue::Bool(true)),
                ParamSpec::new("auto_range", ParamKind::Bool, ParamValue::Bool(true)),
            ],
            emitted_layers: Vec::new(),
            mask_aware: false,
        };
        assert(r@ =~= export_node());
        r
    }
}

/// What a height is mapped from when it is written with limited precision.
#[derive(Clone, Copy, Debug, PartialEq, Eq, Structural)]
pub enum HeightRange {
    /// The range the heights fill, so that nothing is clipped.
    Auto,
    /// Zero to one.
    Normalized,
}

/// The range an export maps from; the range the heights fill unless the node says otherwise.
pub open spec fn export_range(auto_range: Option<bool>) -> HeightRange {
    if auto_range == Some(false) {
        HeightRange::Normalized
    } else {
        HeightRange::Auto
    }
}

impl ExportPng {
    /// The range the export maps from.
    pub fn range(auto_range: Option<bool>) -> (r: HeightRange)
        ensures
            r == export_range(auto_range),
    {
        match auto_range {
            Some(false) => HeightRange::Normalized,
            _ => HeightRange::Auto,
        }
    }
}

} // verus!
