use ymir_nodes::strings::lookup;
use ymir_nodes::{prettify_param, resolve_param, tr, ParamSource};

#[test]
fn resolves_known_keys_and_falls_back() {
    assert_eq!(tr("node-generator.fbm"), "fBm Noise");
    assert_eq!(tr("category-geology"), "Geology");
    // Unknown key echoes itself, never panics.
    assert_eq!(tr("node-does.not.exist"), "node-does.not.exist");
}

#[test]
fn resolve_param_prefers_override_then_shared_then_prettify() {
    // Override: a node-specific enum parameter resolves to its own entry.
    let mode = resolve_param("modifier.blend", "mode");
    assert_eq!(mode.source, ParamSource::Override);
    assert_eq!(mode.label, "Mode");
    assert!(mode.description.is_some());

    // Shared: a meaning-invariant parameter resolves to the shared entry on any node.
    let freq = resolve_param("generator.fbm", "frequency");
    assert_eq!(freq.source, ParamSource::Shared);
    assert_eq!(freq.label, "Frequency");
    assert!(freq.description.is_some());

    // Prettified: no catalog entry, so the label is the prettified id and there is no prose.
    let opacity = resolve_param("modifier.blend", "opacity");
    assert_eq!(opacity.source, ParamSource::Prettified);
    assert_eq!(opacity.label, "Opacity");
    assert!(opacity.description.is_none());
}

#[test]
fn a_contextual_enum_is_never_shared() {
    assert!(lookup("param-mode").is_none(), "`mode` must never be shared");
    assert_eq!(resolve_param("modifier.curvature", "mode").source, ParamSource::Override);
    assert_eq!(resolve_param("modifier.blend", "mode").source, ParamSource::Override);
}

#[test]
fn prettify_param_titlecases_snake_case() {
    assert_eq!(prettify_param("offset_x"), "Offset X");
    assert_eq!(prettify_param("world_extent"), "World Extent");
    // Empty segments (leading, trailing, doubled underscores) are dropped.
    assert_eq!(prettify_param("a__b_"), "A B");
}

#[test]
fn prettify_param_maps_the_first_letter_whatever_it_is() {
    assert_eq!(prettify_param(""), "");
    assert_eq!(prettify_param("___"), "");
    assert_eq!(prettify_param("\u{e9}rosion"), "\u{c9}rosion");
    // One letter may become two.
    assert_eq!(prettify_param("\u{df}_1a"), "SS 1a");
}

#[test]
fn every_parameter_label_has_a_description() {
    for name in ["frequency", "octaves", "seed"] {
        let r = resolve_param("generator.fbm", name);
        assert_eq!(r.description.is_some(), r.source != ParamSource::Prettified);
    }
}

#[test]
fn a_translation_translates_to_itself() {
    for key in ["node-generator.fbm", "category-geology", "node-does.not.exist", ""] {
        assert_eq!(tr(tr(key)), tr(key));
    }
}

#[test]
fn a_label_has_a_description() {
    let described = lookup("node-generator.fbm-desc").unwrap();
    assert!(lookup("node-generator.fbm").is_some());
    assert!(!described.is_empty());
    assert!(lookup("node-does.not.exist").is_none());
    let r = resolve_param("generator.fbm", "octaves");
    assert_eq!(r.clone(), r);
}
