#![allow(dead_code)]
use ymir_nodes::field::{Field, Layer, HEIGHT};
use ymir_nodes::decode_cache::{CacheKey, DecodeCache, DECODE_CACHE_CAP};
use ymir_nodes::nodes::export::HeightRange;
use ymir_nodes::nodes::import::{EdgePolicy, Image};
use ymir_nodes::{ExportExr, ExportPng, ExportR16, Import};

/// The part of the world a field covers.
#[derive(Clone, Copy, Debug, PartialEq)]
struct Region {
    min_x: f64,
    min_y: f64,
    max_x: f64,
    max_y: f64,
}

const UNIT: Region = Region { min_x: 0.0, min_y: 0.0, max_x: 1.0, max_y: 1.0 };

impl Region {
    fn width(&self) -> f64 {
        self.max_x - self.min_x
    }

    fn height(&self) -> f64 {
        self.max_y - self.min_y
    }
}

type Terrain = Field<f32, Region>;

fn terrain(width: usize, height: usize, cell: impl Fn(usize, usize) -> f32) -> Terrain {
    let mut field = Field::new(width, height, UNIT);
    field.set_layer(HEIGHT, Layer::from_fn(width, height, &cell));
    field
}

fn with_layer(mut field: Terrain, name: &str, layer: Layer<f32>) -> Terrain {
    field.set_layer(name, layer);
    field
}

fn layer<'a>(field: &'a Terrain, name: &str) -> &'a Layer<f32> {
    field.layer(name).expect("the layer is there")
}

fn heights(field: &Terrain) -> &[f32] {
    &layer(field, HEIGHT).cells
}

/// The exact bits of a layer, for comparing results byte by byte.
fn bits(values: &[f32]) -> Vec<u32> {
    values.iter().map(|v| v.to_bits()).collect()
}

fn at(field: &Terrain, x: usize, y: usize) -> f32 {
    layer(field, HEIGHT).get(x, y).expect("the cell is on the field")
}

fn sum(field: &Terrain) -> f64 {
    heights(field).iter().map(|&v| f64::from(v)).sum()
}

/// What the world is, as far as the nodes read it.
#[derive(Clone, Copy)]
struct World {
    width: usize,
    height: usize,
    seed: u64,
    extent: f64,
    tall: f64,
    cancelled: bool,
}

impl World {
    fn new(width: usize, height: usize, seed: u64) -> Self {
        World { width, height, seed, extent: 1.0, tall: 1.0, cancelled: false }
    }

    fn with_extent(self, extent: f64) -> Self {
        World { extent, ..self }
    }

    fn with_height(self, tall: f64) -> Self {
        World { tall, ..self }
    }

    fn cancelled(self) -> Self {
        World { cancelled: true, ..self }
    }

    fn meters_per_cell(&self) -> f64 {
        self.extent / self.width as f64
    }

    fn world_to_cells(&self, meters: f64) -> f64 {
        meters / self.meters_per_cell()
    }

    fn slope_scale(&self) -> f64 {
        self.tall / self.meters_per_cell()
    }
}

#[derive(Clone, Copy)]
struct Placement {
    offset_x: f64,
    rotation: f64,
    scale: f64,
    edge: &'static str,
}

const PLAIN: Placement = Placement { offset_x: 0.0, rotation: 0.0, scale: 1.0, edge: "extend" };

fn resample(image: &Image<f32>, res: usize, p: Placement) -> Terrain {
    let (sin, cos) = p.rotation.to_radians().sin_cos();
    let inv_scale = 1.0 / p.scale.max(0.05);
    let lerp = |a: f32, b: f32, t: f32| a + (b - a) * t;
    Import::resample(
        image,
        res,
        res,
        UNIT,
        EdgePolicy::from_id(p.edge),
        0.0,
        &|x: usize, y: usize| {
            let dx = (x as f64 + 0.5) / res as f64 - p.offset_x - 0.5;
            let dy = (y as f64 + 0.5) / res as f64 - 0.5;
            let uvx = 0.5 + (cos * dx + sin * dy) * inv_scale;
            let uvy = 0.5 + (-sin * dx + cos * dy) * inv_scale;
            let (fx, fy) = (uvx * image.width as f64 - 0.5, uvy * image.height as f64 - 0.5);
            let at = (fx.floor() as i64, fy.floor() as i64);
            (at, ((fx - fx.floor()) as f32, (fy - fy.floor()) as f32))
        },
        &|(a, b, c, d): (f32, f32, f32, f32), (tx, ty): (f32, f32)| {
            lerp(lerp(a, b, tx), lerp(c, d, tx), ty)
        },
    )
}

fn image(width: usize, height: usize, data: &[f32]) -> Image<f32> {
    Image { width, height, data: data.to_vec() }
}

/// A ramp along the rows, dark on the left.
fn gradient() -> Image<f32> {
    let data: Vec<f32> = (0..16).map(|i| (i % 4) as f32 / 3.0).collect();
    image(4, 4, &data)
}

#[test]
fn an_empty_path_is_a_flat_zero_field() {
    assert!(Import::is_unset(""));
    let out = Import::flat(8, 8, UNIT, 0.0_f32);
    assert_eq!(heights(&out).len(), 64);
    assert!(heights(&out).iter().all(|&v| v == 0.0));
}

#[test]
fn a_path_of_white_space_names_no_image() {
    assert!(Import::is_unset(" \t\n\u{2003}"));
    assert!(!Import::is_unset(" a "));
}

#[test]
fn imports_pixels_at_native_resolution() {
    let out = resample(&image(2, 2, &[0.0, 1.0, 0.25, 0.75]), 2, PLAIN);
    assert!((at(&out, 0, 0) - 0.0).abs() < 1e-3);
    assert!((at(&out, 1, 0) - 1.0).abs() < 1e-3);
    assert!((at(&out, 0, 1) - 0.25).abs() < 1e-3);
    assert!((at(&out, 1, 1) - 0.75).abs() < 1e-3);
}

#[test]
fn resamples_to_a_higher_resolution() {
    let out = resample(&image(2, 2, &[0.0, 1.0, 1.0, 0.0]), 16, PLAIN);
    let first = heights(&out)[0];
    assert!(heights(&out).iter().any(|&v| v != first), "should vary");
    for v in heights(&out) {
        assert!((0.0..=1.0).contains(v));
    }
}

#[test]
fn import_eval_is_deterministic() {
    let data: Vec<f32> = (0..16).map(|i| i as f32 / 15.0).collect();
    let source = image(4, 4, &data);
    let run = || bits(heights(&resample(&source, 8, PLAIN)));
    assert_eq!(run(), run());
}

#[test]
fn offset_pans_the_image() {
    let base = resample(&gradient(), 16, PLAIN);
    let panned = resample(&gradient(), 16, Placement { offset_x: 0.3, ..PLAIN });
    assert_ne!(bits(heights(&base)), bits(heights(&panned)));
    assert!(at(&panned, 11, 8) < at(&base, 11, 8));
}

#[test]
fn rotation_changes_the_placement() {
    let base = resample(&gradient(), 16, PLAIN);
    let turned = resample(&gradient(), 16, Placement { rotation: 90.0, ..PLAIN });
    assert_ne!(bits(heights(&base)), bits(heights(&turned)));
}

#[test]
fn scale_down_with_zero_edge_leaves_a_void() {
    let out = resample(&gradient(), 16, Placement { scale: 0.5, edge: "zero", ..PLAIN });
    assert!(at(&out, 0, 0) < 0.01, "corner should be the zero void");
    assert!(at(&out, 8, 8) > 0.1, "centre should still sample the image");
}

#[test]
fn edge_zero_and_extend_differ_outside_the_image() {
    let extend = resample(&gradient(), 16, Placement { offset_x: -0.5, ..PLAIN });
    let zero = resample(&gradient(), 16, Placement { offset_x: -0.5, edge: "zero", ..PLAIN });
    assert!(at(&extend, 15, 8) > 0.8, "extend clamps to the bright edge");
    assert!(at(&zero, 15, 8) < 0.05, "zero reads the void");
}

#[test]
fn wrap_by_a_full_width_equals_no_offset() {
    let base = resample(&gradient(), 16, Placement { edge: "wrap", ..PLAIN });
    let wrapped = resample(&gradient(), 16, Placement { offset_x: 1.0, edge: "wrap", ..PLAIN });
    assert_eq!(bits(heights(&base)), bits(heights(&wrapped)));
}

#[test]
fn edges_are_resolved_tap_by_tap() {
    let source = image(3, 2, &[1.0, 2.0, 3.0, 4.0, 5.0, 6.0]);
    let tap = |x, y, edge| source.pixel(x, y, edge, 0.0);
    assert_eq!(tap(-4, 1, EdgePolicy::Extend), 4.0);
    assert_eq!(tap(9, -9, EdgePolicy::Extend), 3.0);
    assert_eq!(tap(-1, 0, EdgePolicy::Wrap), 3.0);
    assert_eq!(tap(4, 3, EdgePolicy::Wrap), 5.0);
    assert_eq!(tap(i64::MIN, i64::MIN, EdgePolicy::Wrap), 2.0);
    assert_eq!(tap(3, 0, EdgePolicy::Zero), 0.0);
    assert_eq!(tap(2, 1, EdgePolicy::Zero), 6.0);
    assert_eq!(source.sample(2, 1, EdgePolicy::Zero, 0.0), (6.0, 0.0, 0.0, 0.0));
    assert_eq!(image(0, 0, &[]).pixel(0, 0, EdgePolicy::Extend, 0.5), 0.5);
}

#[test]
fn an_unknown_edge_extends() {
    assert_eq!(EdgePolicy::from_id("zero"), EdgePolicy::Zero);
    assert_eq!(EdgePolicy::from_id("wrap"), EdgePolicy::Wrap);
    assert_eq!(EdgePolicy::from_id("extend"), EdgePolicy::Extend);
    assert_eq!(EdgePolicy::from_id("mirror"), EdgePolicy::Extend);
}

fn key(path: &str, len: u64) -> CacheKey {
    CacheKey { path: path.to_string(), len, mtime: None }
}

#[test]
fn decode_cache_serves_hits_and_evicts_by_recency() {
    let mut cache: DecodeCache<Vec<f32>> = DecodeCache::new();
    cache.insert(key("a", 1), vec![7.0]);
    assert_eq!(cache.get(&key("a", 1)), Some(&vec![7.0]));
    assert!(cache.get(&key("a", 2)).is_none());
    for i in 0..DECODE_CACHE_CAP {
        cache.insert(key(&format!("x{i}"), 1), vec![0.0]);
    }
    assert!(cache.get(&key("a", 1)).is_none(), "a should have been evicted");
}

#[test]
fn a_hit_outlives_later_insertions() {
    let mut cache: DecodeCache<u32> = DecodeCache::new();
    for i in 0..4 {
        cache.insert(key("x", i), i as u32);
    }
    // The oldest is asked for again, so the next oldest leaves instead.
    assert_eq!(cache.get(&key("x", 0)), Some(&0));
    cache.insert(key("y", 0), 9);
    assert_eq!(cache.get(&key("x", 0)), Some(&0));
    assert_eq!(cache.get(&key("x", 1)), None);
    // One image under a key: the later.
    cache.insert(key("y", 0), 10);
    assert_eq!(cache.get(&key("y", 0)), Some(&10));
    let dated = CacheKey { mtime: Some(3), ..key("y", 0) };
    assert_eq!(cache.get(&dated), None);
}

#[test]
fn exports_fit_their_range_unless_told_not_to() {
    assert_eq!(ExportPng::range(None), HeightRange::Auto);
    assert_eq!(ExportPng::range(Some(false)), HeightRange::Normalized);
    assert_eq!(ExportR16::range(Some(true)), HeightRange::Auto);
    assert_eq!(ExportR16::range(Some(false)), HeightRange::Normalized);
}

#[test]
fn meters_scale_by_the_world_height() {
    assert_eq!(ExportExr::scale(Some("meters"), 512.0, 1.0), 512.0);
    assert_eq!(ExportExr::scale(Some("normalized"), 512.0, 1.0), 1.0);
}
