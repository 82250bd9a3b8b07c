#![allow(dead_code)]
use ymir_nodes::field::{Field, Layer, HEIGHT};
use ymir_nodes::blur::box_blur;
use ymir_nodes::field::MASK;
use ymir_nodes::grid::Grid;
use ymir_nodes::node::ParamValue;
use ymir_nodes::shaping::is_fixed_range;
use ymir_nodes::{FrequencySplit, HistogramScan, Invert, Levels, Material, Normalize, Null, Terrace};

/// The part of the world a field covers.
#[derive(Clone, Copy, Debug, PartialEq)]
struct Region {
    min_x: f64,
    min_y: f64,
    max_x: f64,
    max_y: f64,
}

const UNIT: Region = Region { min_x: 0.0, min_y: 0.0, max_x: 1.0, max_y: 1.0 };

impl Region {
    fn width(&self) -> f64 {
        self.max_x - self.min_x
    }

    fn height(&self) -> f64 {
        self.max_y - self.min_y
    }
}

type Terrain = Field<f32, Region>;

fn terrain(width: usize, height: usize, cell: impl Fn(usize, usize) -> f32) -> Terrain {
    let mut field = Field::new(width, height, UNIT);
    field.set_layer(HEIGHT, Layer::from_fn(width, height, &cell));
    field
}

fn with_layer(mut field: Terrain, name: &str, layer: Layer<f32>) -> Terrain {
    field.set_layer(name, layer);
    field
}

fn layer<'a>(field: &'a Terrain, name: &str) -> &'a Layer<f32> {
    field.layer(name).expect("the layer is there")
}

fn heights(field: &Terrain) -> &[f32] {
    &layer(field, HEIGHT).cells
}

/// The exact bits of a layer, for comparing results byte by byte.
fn bits(values: &[f32]) -> Vec<u32> {
    values.iter().map(|v| v.to_bits()).collect()
}

fn at(field: &Terrain, x: usize, y: usize) -> f32 {
    layer(field, HEIGHT).get(x, y).expect("the cell is on the field")
}

fn sum(field: &Terrain) -> f64 {
    heights(field).iter().map(|&v| f64::from(v)).sum()
}

/// What the world is, as far as the nodes read it.
#[derive(Clone, Copy)]
struct World {
    width: usize,
    height: usize,
    seed: u64,
    extent: f64,
    tall: f64,
    cancelled: bool,
}

impl World {
    fn new(width: usize, height: usize, seed: u64) -> Self {
        World { width, height, seed, extent: 1.0, tall: 1.0, cancelled: false }
    }

    fn with_extent(self, extent: f64) -> Self {
        World { extent, ..self }
    }

    fn with_height(self, tall: f64) -> Self {
        World { tall, ..self }
    }

    fn cancelled(self) -> Self {
        World { cancelled: true, ..self }
    }

    fn meters_per_cell(&self) -> f64 {
        self.extent / self.width as f64
    }

    fn world_to_cells(&self, meters: f64) -> f64 {
        meters / self.meters_per_cell()
    }

    fn slope_scale(&self) -> f64 {
        self.tall / self.meters_per_cell()
    }
}

fn smoothstep(low: f32, high: f32, x: f32) -> f32 {
    let t = if (high - low).abs() < 1e-9 {
        if x >= high { 1.0 } else { 0.0 }
    } else {
        ((x - low) / (high - low)).clamp(0.0, 1.0)
    };
    t * t * (3.0 - 2.0 * t)
}

/// How far `x` is inside the band from `min` to `max`.
fn band(min: f32, max: f32, falloff: f32, x: f32) -> f32 {
    if min > max {
        return 0.0;
    }
    let lower = smoothstep(min - falloff, min, x);
    let upper = if x <= max { 1.0 } else { 1.0 - smoothstep(max, max + falloff, x) };
    (lower * upper).clamp(0.0, 1.0)
}

fn flat(width: usize, height: usize, value: f32) -> Terrain {
    terrain(width, height, |_, _| value)
}

/// A ramp along the rows from `lo` to `hi`.
fn slanted(size: usize, lo: f32, hi: f32) -> Terrain {
    terrain(size, size, |x, _| lo + (hi - lo) * x as f32 / (size - 1) as f32)
}

fn with_flow(field: Terrain, value: f32) -> Terrain {
    let (width, height) = (field.width, field.height);
    with_layer(field, "flow", Layer::filled(width, height, value))
}

fn flow_of(field: &Terrain) -> f32 {
    layer(field, "flow").get(0, 0).unwrap()
}

fn in_unit_range(field: &Terrain) -> bool {
    heights(field).iter().all(|v| (0.0..=1.0).contains(v))
}

/// The lowest and highest value.
fn value_range(values: &Vec<f32>) -> (f32, f32) {
    let lo = values.iter().copied().fold(f32::INFINITY, f32::min);
    let hi = values.iter().copied().fold(f32::NEG_INFINITY, f32::max);
    if values.is_empty() { (0.0, 0.0) } else { (lo, hi) }
}

fn invert(input: &Terrain) -> Terrain {
    Invert::eval(input, (0.0, 1.0), &|h: f32, m: f32| h + ((1.0 - h) - h) * m)
}

fn filled_with(height: f32, mask: Option<f32>) -> Terrain {
    let field = flat(8, 8, height);
    match mask {
        Some(m) => with_layer(field, MASK, Layer::filled(8, 8, m)),
        None => field,
    }
}

#[test]
fn inverts_height() {
    assert!((at(&invert(&filled_with(0.3, None)), 0, 0) - 0.7).abs() < 1e-6);
    assert!((at(&invert(&filled_with(0.0, None)), 0, 0) - 1.0).abs() < 1e-6);
    assert!((at(&invert(&filled_with(1.0, None)), 0, 0) - 0.0).abs() < 1e-6);
}

#[test]
fn double_invert_is_identity() {
    let twice = invert(&invert(&filled_with(0.42, None)));
    assert!((at(&twice, 0, 0) - 0.42).abs() < 1e-6);
}

#[test]
fn mask_modulates_the_invert() {
    assert!((at(&invert(&filled_with(0.3, Some(0.5))), 0, 0) - 0.5).abs() < 1e-6);
    assert!((at(&invert(&filled_with(0.3, Some(0.0))), 0, 0) - 0.3).abs() < 1e-6);
}

#[test]
fn invert_passes_through_other_layers() {
    assert_eq!(flow_of(&invert(&with_flow(filled_with(0.5, None), 0.9))), 0.9);
}

#[test]
fn invert_is_deterministic() {
    let input = filled_with(0.4, None);
    assert_eq!(bits(heights(&invert(&input))), bits(heights(&invert(&input))));
}

#[derive(Clone, Copy)]
struct Transfer {
    in_low: f32,
    in_high: f32,
    gamma: f32,
    out_low: f64,
    out_high: f64,
}

/// The height of the output window, in meters, that the node declares.
fn out_high() -> f64 {
    let spec = Levels.spec();
    let param = spec.params.iter().find(|p| p.name == "out_high").expect("out_high is declared");
    match param.default {
        ParamValue::Float(v) => v.millionths as f64 / 1e6,
        _ => panic!("out_high is a number"),
    }
}

fn neutral() -> Transfer {
    Transfer { in_low: 0.0, in_high: 1.0, gamma: 1.0, out_low: 0.0, out_high: out_high() }
}

/// Applies a transfer in a world as tall as the declared output window.
fn levels(input: &Terrain, p: Transfer) -> Terrain {
    let world = out_high();
    let (low, high) = ((p.out_low / world) as f32, (p.out_high / world) as f32);
    Levels::eval(input, (0.0, 1.0), &|h: f32, m: f32| {
        let span = p.in_high - p.in_low;
        let t = if span.abs() < 1e-9 {
            if h >= p.in_high { 1.0 } else { 0.0 }
        } else {
            ((h - p.in_low) / span).clamp(0.0, 1.0)
        };
        let leveled = low + t.powf(1.0 / p.gamma) * (high - low);
        h + (leveled - h) * m
    })
}

#[test]
fn an_unset_node_is_the_neutral_transfer_once_converted() {
    for height in [1.0, 0.5, 0.0] {
        let out = at(&levels(&filled_with(height, None), neutral()), 0, 0);
        assert!((out - height).abs() < 1e-6, "an unset Levels should pass {height} through, got {out}");
    }
    assert_eq!(out_high(), 256.0);
}

#[test]
fn defaults_pass_height_through() {
    assert!((at(&levels(&filled_with(0.37, None), neutral()), 0, 0) - 0.37).abs() < 1e-6);
}

#[test]
fn output_window_scales_amplitude() {
    let p = Transfer { out_high: out_high() * 0.25, ..neutral() };
    assert!((at(&levels(&filled_with(1.0, None), p), 0, 0) - 0.25).abs() < 1e-6);
    assert!((at(&levels(&filled_with(0.5, None), p), 0, 0) - 0.125).abs() < 1e-6);
}

#[test]
fn a_signed_output_window_centres_the_field_on_zero() {
    let p = Transfer { out_low: out_high() * -0.01, out_high: out_high() * 0.01, ..neutral() };
    assert!((at(&levels(&filled_with(0.5, None), p), 0, 0) - 0.0).abs() < 1e-6);
    assert!((at(&levels(&filled_with(0.0, None), p), 0, 0) - -0.01).abs() < 1e-6);
    assert!((at(&levels(&filled_with(1.0, None), p), 0, 0) - 0.01).abs() < 1e-6);
}

#[test]
fn input_window_normalizes_out_of_range_height() {
    let p = Transfer { in_high: 2.0, ..neutral() };
    assert!((at(&levels(&filled_with(2.0, None), p), 0, 0) - 1.0).abs() < 1e-6);
    assert!((at(&levels(&filled_with(1.0, None), p), 0, 0) - 0.5).abs() < 1e-6);
}

#[test]
fn input_window_clips_outside_the_range() {
    let p = Transfer { in_low: 0.25, in_high: 0.75, ..neutral() };
    assert_eq!(at(&levels(&filled_with(0.1, None), p), 0, 0), 0.0);
    assert_eq!(at(&levels(&filled_with(0.9, None), p), 0, 0), 1.0);
}

#[test]
fn gamma_biases_the_midtones() {
    let up = at(&levels(&filled_with(0.5, None), Transfer { gamma: 2.0, ..neutral() }), 0, 0);
    let down = at(&levels(&filled_with(0.5, None), Transfer { gamma: 0.5, ..neutral() }), 0, 0);
    assert!(up > 0.5, "gamma > 1 should lift the mid: {up}");
    assert!(down < 0.5, "gamma < 1 should lower the mid: {down}");
}

#[test]
fn mask_modulates_the_effect() {
    let p = Transfer { out_high: 0.0, ..neutral() };
    assert!((at(&levels(&filled_with(1.0, Some(0.5)), p), 0, 0) - 0.5).abs() < 1e-6);
}

#[test]
fn levels_passes_through_other_layers() {
    assert_eq!(flow_of(&levels(&with_flow(filled_with(0.5, None), 0.9), neutral())), 0.9);
}

#[test]
fn levels_is_deterministic() {
    let input = filled_with(0.6, None);
    let p = Transfer { in_high: 0.8, gamma: 1.5, out_high: 0.7, ..neutral() };
    assert_eq!(bits(heights(&levels(&input, p))), bits(heights(&levels(&input, p))));
}

fn normalize(input: &Terrain) -> Terrain {
    Normalize::eval(input, (0.0, 1.0), &value_range, &|(lo, hi): (f32, f32), v: f32, m: f32| {
        let span = hi - lo;
        let normalized = if span > f32::EPSILON { (v - lo) / span } else { v };
        v + (normalized - v) * m
    })
}

#[test]
fn fits_the_actual_range_to_unit() {
    let out = normalize(&slanted(16, 0.2, 0.8));
    assert!((at(&out, 0, 8) - 0.0).abs() < 1e-6, "min maps to 0");
    assert!((at(&out, 15, 8) - 1.0).abs() < 1e-6, "max maps to 1");
    assert!((at(&out, 8, 8) - 8.0 / 15.0).abs() < 1e-6, "midpoint stays proportional");
}

#[test]
fn negative_and_over_range_values_come_into_unit() {
    let out = normalize(&slanted(16, -0.5, 1.5));
    assert!(
        heights(&out).iter().all(|v| (-1e-6..=1.0 + 1e-6).contains(v)),
        "everything lands in [0, 1]"
    );
}

#[test]
fn a_flat_field_passes_through() {
    let out = normalize(&flat(8, 8, 0.37));
    assert!(
        heights(&out).iter().all(|v| (v - 0.37).abs() < 1e-6),
        "a constant field has no range to fit and is unchanged"
    );
}

#[test]
fn mask_gates_the_remap() {
    let upper = |_: usize, y: usize| if y < 8 { 0.0 } else { 1.0 };
    let input = with_layer(slanted(16, 0.2, 0.8), MASK, Layer::from_fn(16, 16, &upper));
    let out = normalize(&input);
    assert!((at(&out, 0, 0) - 0.2).abs() < 1e-6, "mask 0 keeps original");
    assert!((at(&out, 0, 12) - 0.0).abs() < 1e-6, "mask 1 normalizes (min -> 0)");
}

#[test]
fn normalize_passes_through_other_layers() {
    assert_eq!(flow_of(&normalize(&with_flow(slanted(16, 0.2, 0.8), 0.7))), 0.7);
}

#[test]
fn normalize_is_byte_identical_across_runs() {
    let input = slanted(16, 0.2, 0.8);
    assert_eq!(bits(heights(&normalize(&input))), bits(heights(&normalize(&input))));
}

fn terrace_curve(value: f32, bands: f32, sharpness: f32) -> f32 {
    let f = value * bands;
    let base = f.floor();
    let w = (0.5 * (1.0 - sharpness)).max(1e-4);
    (base + smoothstep(0.5 - w, 0.5 + w, f - base)) / bands
}

fn terrace(input: &Terrain, bands: f64, sharpness: f64, range: Option<&str>) -> Terrain {
    let (bands, sharpness) = (bands.max(2.0) as f32, sharpness.clamp(0.0, 1.0) as f32);
    let measure = |values: &Vec<f32>| {
        let (lo, hi) = value_range(values);
        (lo, hi - lo)
    };
    Terrace::eval(
        input,
        (0.0, 1.0),
        range,
        (0.0, 1.0),
        &measure,
        &|(lo, span): (f32, f32), v: f32, m: f32| {
            let terraced = if span <= f32::EPSILON {
                v
            } else {
                lo + terrace_curve((v - lo) / span, bands, sharpness) * span
            };
            v + (terraced - v) * m
        },
    )
}

#[test]
fn low_sharpness_is_gentler_than_high() {
    let res = 64;
    let input = slanted(res, 0.0, 1.0);
    let dev = |sharp: f64| -> f32 {
        let out = terrace(&input, 8.0, sharp, None);
        (0..res).map(|x| (at(&out, x, 0) - at(&input, x, 0)).abs()).sum::<f32>()
    };
    assert!(dev(1.0) > dev(0.1), "hard terraces should deviate more than soft");
    assert!(dev(0.1) > 0.0, "even soft terracing reshapes the ramp");
}

#[test]
fn mask_limits_the_terracing() {
    let res = 32;
    let input = with_layer(slanted(res, 0.0, 1.0), MASK, Layer::filled(res, res, 0.0));
    let out = terrace(&input, 8.0, 1.0, None);
    for x in 0..res {
        assert!((at(&out, x, 0) - (x as f32 / (res as f32 - 1.0))).abs() < 1e-6);
    }
}

#[test]
fn terrace_passes_through_other_layers() {
    let out = terrace(&with_flow(slanted(16, 0.0, 1.0), 0.9), 8.0, 0.7, None);
    assert_eq!(flow_of(&out), 0.9);
}

#[test]
fn auto_range_tracks_the_terrain_distribution() {
    let res = 128;
    let input = slanted(res, 0.4, 0.6);
    let distinct_levels = |range: &str| -> usize {
        let out = terrace(&input, 8.0, 1.0, Some(range));
        let mut levels: Vec<i32> = (0..res).map(|x| (at(&out, x, 0) * 10_000.0).round() as i32).collect();
        levels.dedup();
        levels.len()
    };
    assert!(
        distinct_levels("auto") > distinct_levels("fixed"),
        "auto should show more terraces than fixed on a compressed range",
    );
    let out = terrace(&input, 8.0, 1.0, Some("auto"));
    assert!((at(&out, 0, 0) - 0.4).abs() < 1e-4, "auto preserves the low end");
    assert!((at(&out, res - 1, 0) - 0.6).abs() < 1e-4, "auto preserves the high end");
}

#[test]
fn terrace_is_deterministic() {
    let input = slanted(24, 0.0, 1.0);
    let run = || bits(heights(&terrace(&input, 8.0, 0.6, None)));
    assert_eq!(run(), run());
}

fn scan(input: &Terrain, position: f32, width: f32, falloff: f32, range: &str) -> Terrain {
    let half = width.max(0.0) * 0.5;
    let measure = |values: &Vec<f32>| {
        let (lo, hi) = value_range(values);
        (lo, hi - lo)
    };
    HistogramScan::eval(
        input,
        0.0,
        Some(range),
        (0.0, 1.0),
        &measure,
        &|(lo, span): (f32, f32), v: f32| {
            let t = if span <= f32::EPSILON { 0.5 } else { (v - lo) / span };
            band(position - half, position + half, falloff.max(0.0), t)
        },
    )
}

#[test]
fn a_value_in_the_window_is_selected() {
    let out = scan(&slanted(16, 0.0, 1.0), 0.5, 0.5, 0.1, "auto");
    assert!(at(&out, 8, 8) > 0.9, "mid value should select ~1");
}

#[test]
fn values_outside_the_window_are_excluded() {
    let out = scan(&slanted(32, 0.0, 1.0), 0.5, 0.5, 0.05, "auto");
    assert!(at(&out, 0, 0) < 0.01, "low end excluded");
    assert!(at(&out, 31, 0) < 0.01, "high end excluded");
}

#[test]
fn histogram_scan_falloff_softens_the_edge() {
    let soft = scan(&slanted(32, 0.0, 1.0), 0.3, 0.2, 0.15, "auto");
    let hard = scan(&slanted(32, 0.0, 1.0), 0.3, 0.2, 0.0, "auto");
    let s = at(&soft, 16, 0);
    assert!(s > 0.01 && s < 0.99, "edge should be partial under falloff: {s}");
    assert_eq!(at(&hard, 16, 0), 0.0, "no falloff is a hard cutoff");
}

#[test]
fn auto_range_scans_the_actual_range_unit_free() {
    let out = scan(&slanted(16, 0.0, 90.0), 0.5, 0.5, 0.05, "auto");
    assert!(at(&out, 8, 8) > 0.9, "mid of the actual range selects ~1");
    assert!(at(&out, 0, 0) < 0.01, "low degrees excluded");
    assert!(at(&out, 15, 8) < 0.01, "high degrees excluded");
}

#[test]
fn fixed_range_uses_absolute_values() {
    let unit = scan(&slanted(16, 0.0, 1.0), 0.5, 0.5, 0.05, "fixed");
    assert!(at(&unit, 8, 8) > 0.9, "value ~0.5 sits inside the absolute window");
    let scaled = scan(&slanted(16, 0.0, 90.0), 0.5, 0.5, 0.05, "fixed");
    assert!(at(&scaled, 8, 8) < 0.01, "value 45 is far outside the absolute window");
}

#[test]
fn flat_input_resolves_without_dividing_by_zero() {
    let level = flat(8, 8, 0.3);
    assert!(at(&scan(&level, 0.5, 1.0, 0.0, "auto"), 4, 4) > 0.9, "centred window selects it");
    assert!(at(&scan(&level, 0.1, 0.1, 0.0, "auto"), 4, 4) < 0.01, "off-centre window misses it");
}

#[test]
fn histogram_scan_the_selection_rides_on_height_not_a_mask_layer() {
    let out = scan(&slanted(16, 0.0, 1.0), 0.5, 0.5, 0.1, "auto");
    assert!(out.layer(MASK).is_none(), "no mask layer is written");
    assert!(at(&out, 8, 8) > 0.0, "the selection is on the height layer");
}

#[test]
fn histogram_scan_passes_through_other_layers() {
    let out = scan(&with_flow(slanted(16, 0.0, 1.0), 0.7), 0.5, 0.5, 0.1, "auto");
    assert_eq!(flow_of(&out), 0.7);
}

#[test]
fn histogram_scan_stays_in_unit_range() {
    assert!(in_unit_range(&scan(&slanted(16, 0.0, 1.0), 0.5, 0.5, 0.1, "auto")));
}

#[test]
fn histogram_scan_is_byte_identical_across_runs() {
    let input = slanted(16, 0.0, 1.0);
    let run = || bits(heights(&scan(&input, 0.5, 0.5, 0.1, "auto")));
    assert_eq!(run(), run());
}

fn material(values: &[f32]) -> Vec<f32> {
    let input = terrain(values.len(), 1, |x, _| values[x]);
    heights(&Material::eval(&input, 0.0, &|v: f32| v.clamp(0.0, 1.0))).to_vec()
}

#[test]
fn a_selection_passes_through_as_the_weight() {
    assert_eq!(material(&[0.0, 0.25, 1.0]), vec![0.0, 0.25, 1.0]);
}

#[test]
fn clamping_is_the_nodes_job() {
    assert_eq!(material(&[-2.0, 0.5, 4.0]), vec![0.0, 0.5, 1.0]);
}

#[test]
fn every_other_layer_passes_through_untouched() {
    let input = with_flow(flat(2, 1, 0.5), 0.7);
    let out = Material::eval(&input, 0.0, &|v: f32| v.clamp(0.0, 1.0));
    assert!(
        std::ptr::eq(layer(&out, "flow"), layer(&input, "flow")),
        "an untouched layer should be the same allocation, not a copy"
    );
}

#[test]
fn passes_the_field_through_unchanged() {
    let input = with_layer(slanted(8, 0.0, 1.0), "water", Layer::filled(8, 8, 0.3));
    let input = with_layer(input, MASK, Layer::filled(8, 8, 0.5));
    let out = Null::eval(&input);
    assert_eq!((out.width, out.height, out.region), (input.width, input.height, input.region));
    assert_eq!(out.layer_names(), input.layer_names());
    for name in input.layer_names() {
        assert_eq!(bits(&layer(&out, &name).cells), bits(&layer(&input, &name).cells));
    }
}

/// A blur of `sigma` cells, by three box passes.
fn smooth(values: &Vec<f32>, size: usize, sigma: f64) -> Vec<f32> {
    let radius = (((12.0 * sigma * sigma / 3.0 + 1.0).sqrt() - 1.0) / 2.0).round() as usize;
    let grid = Grid { width: size, height: size };
    box_blur(values, &grid, radius, 3, 0.0, &|a: f32, b: f32| a + b, &|s: f32, n: usize| s / n as f32)
}

fn split(input: &Terrain, radius: f64, extent: f64) -> (Terrain, Terrain) {
    let size = input.width;
    let sigma = World::new(size, size, 0).with_extent(extent).world_to_cells(radius.max(0.0));
    FrequencySplit::eval(
        input,
        0.0,
        &|values: &Vec<f32>| smooth(values, size, sigma),
        &|h: f32, low: f32| h - low,
    )
}

#[test]
fn bands_recombine_to_the_input() {
    let input = slanted(32, 0.0, 1.0);
    let (low, high) = split(&input, 6.0, 32.0);
    for y in 0..32 {
        for x in 0..32 {
            let sum = at(&low, x, y) + at(&high, x, y);
            assert!((sum - at(&input, x, y)).abs() < 1e-4, "low+high != input at {x},{y}: {sum}");
        }
    }
}

#[test]
fn low_smooths_and_high_carries_the_edge() {
    let res = 32;
    let step = terrain(res, res, |x, _| if x < res / 2 { 0.0 } else { 1.0 });
    let (low, high) = split(&step, 4.0, res as f64);
    let mid = res / 2;
    assert!(at(&low, mid - 1, mid) > 0.001 && at(&low, mid - 1, mid) < 0.5);
    assert!(at(&low, mid, mid) > 0.5 && at(&low, mid, mid) < 0.999);
    assert!(at(&high, mid, mid).abs() > 0.001, "high flat at the edge");
    assert!(at(&high, 0, mid).abs() < 0.01, "high not ~0 far from the edge");
}

#[test]
fn zero_radius_puts_everything_in_low() {
    let input = slanted(16, 0.0, 1.0);
    let (low, high) = split(&input, 0.0, 16.0);
    for y in 0..16 {
        for x in 0..16 {
            assert!((at(&low, x, y) - at(&input, x, y)).abs() < 1e-6);
            assert!(at(&high, x, y).abs() < 1e-6);
        }
    }
}

#[test]
fn a_constant_field_has_no_detail() {
    let (low, high) = split(&flat(16, 16, 0.42), 4.0, 16.0);
    for y in 0..16 {
        for x in 0..16 {
            assert!((at(&low, x, y) - 0.42).abs() < 1e-5);
            assert!(at(&high, x, y).abs() < 1e-5);
        }
    }
}

#[test]
fn both_outputs_pass_through_other_layers() {
    let (low, high) = split(&with_flow(flat(16, 16, 0.5), 0.9), 4.0, 16.0);
    assert_eq!(flow_of(&low), 0.9);
    assert_eq!(flow_of(&high), 0.9);
}

#[test]
fn frequency_split_is_deterministic() {
    let input = slanted(24, 0.0, 1.0);
    let (l1, h1) = split(&input, 5.0, 24.0);
    let (l2, h2) = split(&input, 5.0, 24.0);
    assert_eq!(bits(heights(&l1)), bits(heights(&l2)));
    assert_eq!(bits(heights(&h1)), bits(heights(&h2)));
}

#[test]
fn a_missing_height_reads_as_flat() {
    let bare: Terrain = Field::new(4, 4, UNIT);
    let out = invert(&bare);
    assert!(heights(&out).iter().all(|&v| v == 1.0));
}

#[test]
fn a_range_is_fixed_only_by_name() {
    assert!(is_fixed_range(Some("fixed")));
    assert!(!is_fixed_range(Some("auto")));
    assert!(!is_fixed_range(Some("Fixed")));
    assert!(!is_fixed_range(None));
}
