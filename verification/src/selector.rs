//! What the band selectors share: each can emit a selection or its raw measure.
use crate::node::{enum_param, Param, ParamSpec};
use crate::text::same_text;
use vstd::prelude::*;

verus! {

/// The `output` parameter every band selector carries.
pub open spec fn selector_output() -> Param {
    enum_param("output"@, seq!["selection"@, "measure"@], "selection"@)
}

/// The `output` parameter every band selector carries: `selection` (default) or `measure`.
pub fn output_param() -> (r: ParamSpec)
    ensures
        r@ == selector_output(),
{
    let options: Vec<&'static str> = vec!["selection", "measure"];
    assert(crate::node::texts(options@) =~= seq!["selection"@, "measure"@]);
    ParamSpec::choice("output", options, "selection")
}

/// Whether the node should emit its raw measure instead of the `[0, 1]` selection.
pub open spec fn measures(output: Option<&str>) -> bool {
    output matches Some(v) && v@ == "measure"@
}

/// Whether the node should emit its raw measure instead of the `[0, 1]` selection, given the value
/// of its `output` parameter where it is set.
pub fn is_measure(output: Option<&str>) -> (r: bool)
    ensures
        r == measures(output),
{
    match output {
        Some(v) => same_text(v, "measure"),
        None => false,
    }
}

} // verus!
