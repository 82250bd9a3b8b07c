//! The EXR exporter.
use crate::node::{
    enum_param, param, port, texts, Kind, Node, NodeSpec, ParamKind, ParamSpec, ParamValue,
    PortSpec, Value,
};
use crate::text::same_text;
use vstd::prelude::*;

verus! {

/// Writes the input field's `height` layer to a 32-bit float EXR. Unlike the 16-bit PNG
/// and `.r16` exporters, the float channel is lossless and can carry **absolute elevation
/// in meters** (`height * world_height`), self-describing for any DCC. An endpoint by
/// arity: one input, no outputs, never memoized, so the write happens on every pull.
#[derive(Clone, Copy, Debug)]
pub struct ExportExr;

/// What the node declares.
pub open spec fn export_exr_node() -> Node {
    Node {
        type_id: "endpoint.export_exr"@,
        category: "output"@,
        tags: Seq::empty(),
        inputs: seq![port("in"@)],
        outputs: Seq::empty(),
        params: seq![
            param("path"@, Kind::Text, Value::Text("out/heightmap.exr"@)),
            param("build"@, Kind::Bool, Value::Bool(true)),
            enum_param("height_units"@, seq!["normalized"@, "meters"@], "normalized"@),
        ],
        emitted_layers: Seq::empty(),
        mask_aware: false,
    }
}

impl ExportExr {
    /// The node's declaration.
    pub fn spec(&self) -> (r: NodeSpec)
        ensures
            r@ == export_exr_node(),
            r@.defaults_admitted(),
    {
        let options: Vec<&'static str> = vec!["normalized", "meters"];
        assert(texts(options@) =~= seq!["normalized"@, "meters"@]);
        assert(texts(options@)[0] == "normalized"@);
        let r: NodeSpec = NodeSpec {
            type_id: "endpoint.export_exr",
            category: "output",
            tags: Vec::new(),
            inputs: vec![PortSpec::new("in")],
            outputs: Vec::new(),
            params: vec![
                ParamSpec::new("path", ParamKind::Text, ParamValue::Text("out/heightmap.exr")),
                ParamSpec::new("build", ParamKind::Bool, ParamValue::Bool(true)),
                ParamSpec::choice("height_units", options, "normalized"),
            ],
            emitted_layers: Vec::new(),
            mask_aware: false,
        };
        assert(r@ =~= export_exr_node());
        r
    }
}

/// Whether the file carries elevations in meters rather than heights as they are, the default.
pub open spec fn in_meters(units: Option<&str>) -> bool {
    units matches Some(u) && u@ == "meters"@
}

impl ExportExr {
    /// What heights are multiplied by: the world's height in meters, or `one`.
    pub fn scale<V>(units: Option<&str>, world_height: V, one: V) -> (r: V)
        ensures
            r == if in_meters(units) {
                world_height
            } else {
                one
            },
    {
        let meters: bool = match units {
            Some(u) => same_text(u, "meters"),
            None => false,
        };
        if meters {
            world_height
        } else {
            one
        }
    }
}

} // verus!
