use ymir_nodes::node::{ContextDeps, NodeKind, ParamGroup, ParamKind, ParamValue};
use ymir_nodes::{
    ExportExr, ExportPng, ExportR16, Expression, Falloff, Fbm, Flow, FlowDroplet, FlowHarmonic,
    FlowSelect, FlowWater, Gradient, GrowShrink, Hybrid, HydraulicErosion, Import, Levels, Material,
    Null, Paint, Polygon, Radial, Rect, Ring, Rivers, StreamErosion, ThermalErosion, Warp,
};

#[test]
fn falloff_spec_is_a_generator() {
    let spec = Falloff.spec();
    assert_eq!(spec.kind(), NodeKind::Generator);
    assert_eq!(spec.type_id, "generator.falloff");
}

#[test]
fn fbm_spec_is_a_generator() {
    let spec = Fbm.spec();
    assert_eq!(spec.kind(), NodeKind::Generator);
    assert_eq!(spec.type_id, "generator.fbm");
}

#[test]
fn flow_spec_is_a_generator() {
    let spec = Flow.spec();
    assert_eq!(spec.kind(), NodeKind::Generator);
    assert_eq!(spec.type_id, "generator.flow");
}

#[test]
fn gradient_spec_is_a_generator() {
    let spec = Gradient.spec();
    assert_eq!(spec.kind(), NodeKind::Generator);
    assert_eq!(spec.type_id, "generator.gradient");
}

#[test]
fn hybrid_spec_is_a_generator() {
    let spec = Hybrid.spec();
    assert_eq!(spec.kind(), NodeKind::Generator);
    assert_eq!(spec.type_id, "generator.hybrid");
}

#[test]
fn import_spec_is_a_generator() {
    let spec = Import.spec();
    assert_eq!(spec.kind(), NodeKind::Generator);
    assert_eq!(spec.type_id, "generator.import");
}

#[test]
fn polygon_spec_is_a_generator() {
    let spec = Polygon.spec();
    assert_eq!(spec.kind(), NodeKind::Generator);
    assert_eq!(spec.type_id, "generator.polygon");
}

#[test]
fn radial_spec_is_a_generator() {
    let spec = Radial.spec();
    assert_eq!(spec.kind(), NodeKind::Generator);
    assert_eq!(spec.type_id, "generator.radial");
}

#[test]
fn rect_spec_is_a_generator() {
    let spec = Rect.spec();
    assert_eq!(spec.kind(), NodeKind::Generator);
    assert_eq!(spec.type_id, "generator.rect");
}

#[test]
fn ring_spec_is_a_generator() {
    let spec = Ring.spec();
    assert_eq!(spec.kind(), NodeKind::Generator);
    assert_eq!(spec.type_id, "generator.ring");
}

#[test]
fn flow_droplet_spec_is_a_selector_modifier() {
    let spec = FlowDroplet.spec();
    assert_eq!(spec.kind(), NodeKind::Modifier);
    assert_eq!(spec.type_id, "modifier.flow_droplet");
}

#[test]
fn flow_harmonic_spec_is_a_selector_modifier() {
    let spec = FlowHarmonic.spec();
    assert_eq!(spec.kind(), NodeKind::Modifier);
    assert_eq!(spec.type_id, "modifier.flow_harmonic");
}

#[test]
fn flow_select_spec_is_a_selector_modifier() {
    let spec = FlowSelect.spec();
    assert_eq!(spec.kind(), NodeKind::Modifier);
    assert_eq!(spec.type_id, "modifier.flow");
}

#[test]
fn flow_water_spec_is_a_selector_modifier() {
    let spec = FlowWater.spec();
    assert_eq!(spec.kind(), NodeKind::Modifier);
    assert_eq!(spec.type_id, "modifier.flow_water");
}

#[test]
fn expression_spec_is_a_modifier() {
    let spec = Expression.spec();
    assert_eq!(spec.kind(), NodeKind::Modifier);
    assert_eq!(spec.type_id, "modifier.expression");
}

#[test]
fn levels_spec_is_a_modifier() {
    let spec = Levels.spec();
    assert_eq!(spec.kind(), NodeKind::Modifier);
    assert_eq!(spec.type_id, "modifier.levels");
}

#[test]
fn warp_spec_is_a_modifier() {
    let spec = Warp.spec();
    assert_eq!(spec.kind(), NodeKind::Modifier);
    assert_eq!(spec.type_id, "modifier.warp");
}

#[test]
fn spec_is_a_filter_modifier() {
    let spec = GrowShrink.spec();
    assert_eq!(spec.kind(), NodeKind::Modifier);
    assert_eq!(spec.type_id, "modifier.grow_shrink");
    assert_eq!(spec.category, "filter");
}

#[test]
fn spec_is_a_modifier_in_utility() {
    let spec = Null.spec();
    assert_eq!(spec.kind(), NodeKind::Modifier);
    assert_eq!(spec.type_id, "modifier.null");
    assert_eq!(spec.category, "utility");
    assert!(spec.params.is_empty(), "Null takes no parameters");
}

fn output_names(spec: &ymir_nodes::node::NodeSpec) -> Vec<&'static str> {
    spec.outputs.iter().map(|p| p.name).collect()
}

#[test]
fn spec_outputs_are_heightfield_flow_wear() {
    let spec = Rivers.spec();
    assert_eq!(output_names(&spec), ["heightfield", "flow", "wear"]);
    assert_eq!(spec.kind(), NodeKind::Modifier);
}

#[test]
fn spec_outputs_are_heightfield_flow_wear_deposition() {
    let spec = StreamErosion.spec();
    assert_eq!(output_names(&spec), ["heightfield", "flow", "wear", "deposition"]);
    assert_eq!(spec.kind(), NodeKind::Modifier);
}

#[test]
fn spec_outputs_are_the_erosion_taps() {
    let spec = HydraulicErosion.spec();
    assert_eq!(output_names(&spec), ["heightfield", "wear", "deposition", "flow"]);
}

#[test]
fn spec_has_heightfield_wear_and_debris_outputs() {
    let spec = ThermalErosion.spec();
    assert_eq!(output_names(&spec), ["heightfield", "wear", "debris"]);
}

#[test]
fn it_takes_a_selection_and_no_terrain() {
    let spec = Material.spec();
    assert_eq!(spec.kind(), NodeKind::Modifier);
    assert_eq!(spec.inputs.len(), 1, "one input, the selection");
    assert!(!spec.inputs[0].optional);
    assert_eq!(spec.outputs.len(), 1);
}

#[test]
fn colour_is_its_only_parameter() {
    let spec = Material.spec();
    let names: Vec<&str> = spec.params.iter().map(|p| p.name).collect();
    assert_eq!(names, ["color"]);
}

#[test]
fn all_five_params_form_one_composite_control() {
    let spec = Levels.spec();
    assert_eq!(spec.params.len(), 5);
    assert!(
        spec.params.iter().all(|p| p.group == Some(ParamGroup::Levels)),
        "an ungrouped parameter among the five would split the control"
    );
    let names: Vec<&str> = spec.params.iter().map(|p| p.name).collect();
    assert_eq!(
        names,
        ["in_low", "in_high", "gamma", "out_low", "out_high"],
        "the composite editor reads its members by position, so their order is contractual"
    );
}

#[test]
fn gamma_is_logarithmic_so_neutral_sits_mid_travel() {
    let spec = Levels.spec();
    let gamma = spec.params.iter().find(|p| p.name == "gamma").expect("gamma is declared");
    assert!(gamma.logarithmic);
    let (min, max) = match &gamma.kind {
        ParamKind::Float { min, max } => (min.millionths as f64 / 1e6, max.millionths as f64 / 1e6),
        _ => panic!("gamma is a float"),
    };
    assert!(
        ((min * max).sqrt() - 1.0).abs() < 1e-9,
        "neutral 1.0 should be the geometric midpoint of [{min}, {max}]"
    );
}

#[test]
fn exports_are_endpoints() {
    assert_eq!(ExportPng.spec().kind(), NodeKind::Endpoint);
    assert_eq!(ExportExr.spec().kind(), NodeKind::Endpoint);
    assert_eq!(ExportR16.spec().kind(), NodeKind::Endpoint);
    assert!(ExportPng.spec().outputs.is_empty());
}

#[test]
fn context_dependencies_are_what_the_nodes_read() {
    assert_eq!(Fbm.context_deps(), ContextDeps::WorldExtent);
    assert_eq!(Hybrid.context_deps(), ContextDeps::NoWorld);
    assert_eq!(Levels.context_deps(), ContextDeps::WorldHeight);
    assert_eq!(Paint.context_deps(), ContextDeps::NoWorld);
    assert_eq!(StreamErosion.context_deps(), ContextDeps::WorldExtent);
}

#[test]
fn generators_are_grouped() {
    let group = Fbm.group();
    assert_eq!((group.group, group.sort), ("noise", 10));
    let group = Polygon.group();
    assert_eq!((group.group, group.sort), ("shape", 33));
}

#[test]
fn defaults_lie_in_their_ranges() {
    for p in StreamErosion.spec().params.iter().chain(Rect.spec().params.iter()) {
        match (&p.kind, &p.default) {
            (ParamKind::Float { min, max }, ParamValue::Float(d)) => {
                assert!(min.millionths <= d.millionths && d.millionths <= max.millionths, "{}", p.name);
            }
            (ParamKind::Int { least, most }, ParamValue::Int(d)) => {
                assert!(least <= d && d <= most, "{}", p.name);
            }
            _ => {}
        }
    }
}

#[test]
fn no_node_declares_emitted_layers() {
    assert!(Fbm.spec().emitted_layers.is_empty());
    assert!(Warp.spec().emitted_layers.is_empty());
    assert!(ThermalErosion.spec().emitted_layers.is_empty());
}
