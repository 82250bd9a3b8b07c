#![allow(dead_code)]
use ymir_nodes::field::{Field, Layer, HEIGHT};
use ymir_nodes::field::{BACKDROP, MASK};
use ymir_nodes::strokes::{StrokeFns, StrokeMode};
use ymir_nodes::{Paint, Sculpt};

/// The part of the world a field covers.
#[derive(Clone, Copy, Debug, PartialEq)]
struct Region {
    min_x: f64,
    min_y: f64,
    max_x: f64,
    max_y: f64,
}

const UNIT: Region = Region { min_x: 0.0, min_y: 0.0, max_x: 1.0, max_y: 1.0 };

impl Region {
    fn width(&self) -> f64 {
        self.max_x - self.min_x
    }

    fn height(&self) -> f64 {
        self.max_y - self.min_y
    }
}

type Terrain = Field<f32, Region>;

fn terrain(width: usize, height: usize, cell: impl Fn(usize, usize) -> f32) -> Terrain {
    let mut field = Field::new(width, height, UNIT);
    field.set_layer(HEIGHT, Layer::from_fn(width, height, &cell));
    field
}

fn with_layer(mut field: Terrain, name: &str, layer: Layer<f32>) -> Terrain {
    field.set_layer(name, layer);
    field
}

fn layer<'a>(field: &'a Terrain, name: &str) -> &'a Layer<f32> {
    field.layer(name).expect("the layer is there")
}

fn heights(field: &Terrain) -> &[f32] {
    &layer(field, HEIGHT).cells
}

/// The exact bits of a layer, for comparing results byte by byte.
fn bits(values: &[f32]) -> Vec<u32> {
    values.iter().map(|v| v.to_bits()).collect()
}

fn at(field: &Terrain, x: usize, y: usize) -> f32 {
    layer(field, HEIGHT).get(x, y).expect("the cell is on the field")
}

fn sum(field: &Terrain) -> f64 {
    heights(field).iter().map(|&v| f64::from(v)).sum()
}

/// What the world is, as far as the nodes read it.
#[derive(Clone, Copy)]
struct World {
    width: usize,
    height: usize,
    seed: u64,
    extent: f64,
    tall: f64,
    cancelled: bool,
}

impl World {
    fn new(width: usize, height: usize, seed: u64) -> Self {
        World { width, height, seed, extent: 1.0, tall: 1.0, cancelled: false }
    }

    fn with_extent(self, extent: f64) -> Self {
        World { extent, ..self }
    }

    fn with_height(self, tall: f64) -> Self {
        World { tall, ..self }
    }

    fn cancelled(self) -> Self {
        World { cancelled: true, ..self }
    }

    fn meters_per_cell(&self) -> f64 {
        self.extent / self.width as f64
    }

    fn world_to_cells(&self, meters: f64) -> f64 {
        meters / self.meters_per_cell()
    }

    fn slope_scale(&self) -> f64 {
        self.tall / self.meters_per_cell()
    }
}

#[derive(Clone, Copy)]
struct Dot {
    at: (f32, f32),
    radius: f32,
    strength: f32,
    hardness: f32,
    mode: StrokeMode,
}

impl Dot {
    /// How much of a full stroke the brush puts at a position.
    fn coverage(&self, x: f32, y: f32) -> f32 {
        let d = ((x - self.at.0).powi(2) + (y - self.at.1).powi(2)).sqrt() / self.radius;
        if d >= 1.0 {
            return 0.0;
        }
        if d <= self.hardness {
            return 1.0;
        }
        let t = (d - self.hardness) / (1.0 - self.hardness);
        1.0 - t * t * (3.0 - 2.0 * t)
    }
}

fn dot(radius: f32, strength: f32, hardness: f32, mode: StrokeMode) -> Dot {
    Dot { at: (0.5, 0.5), radius, strength, hardness, mode }
}

/// The amount a dot puts on a cell of a field of a size.
fn amount(dots: &[Dot], i: usize, x: usize, y: usize, size: usize) -> Option<f32> {
    let px = (x as f32 + 0.5) / size as f32;
    let py = (y as f32 + 0.5) / size as f32;
    let coverage = dots[i].coverage(px, py);
    if coverage <= 0.0 {
        None
    } else {
        Some((coverage * dots[i].strength).clamp(0.0, 1.0))
    }
}

fn modes(dots: &[Dot]) -> Vec<StrokeMode> {
    dots.iter().map(|d| d.mode).collect()
}

fn paint(dots: &[Dot], size: usize, backdrop: Option<&Terrain>, base: Option<&Terrain>) -> Terrain {
    let f = StrokeFns {
        begin: |v: f32| v.clamp(0.0, 1.0),
        cover: |i: usize, x: usize, y: usize| amount(dots, i, x, y, size),
        paint: |v: f32, a: f32| v + (1.0 - v) * a,
        erase: |v: f32, a: f32| v - v * a,
        end: |v: f32| v.clamp(0.0, 1.0),
    };
    Paint::eval((size, size), UNIT, backdrop, base, 0.0, &f, &modes(dots))
}

fn sculpt(base: Option<&Terrain>, dots: &[Dot], size: usize) -> Terrain {
    let f = StrokeFns {
        begin: |v: f32| v,
        cover: |i: usize, x: usize, y: usize| amount(dots, i, x, y, size),
        paint: |v: f32, a: f32| v + a,
        erase: |v: f32, a: f32| v - a,
        end: |v: f32| v,
    };
    Sculpt::eval((size, size), UNIT, base, 0.0, &f, &modes(dots))
}

fn flat(size: usize, value: f32) -> Terrain {
    terrain(size, size, |_, _| value)
}

#[test]
fn empty_strokes_give_a_zero_field() {
    let out = paint(&[], 16, None, None);
    assert!(heights(&out).iter().all(|&v| v == 0.0), "no strokes paints nothing");
}

#[test]
fn a_round_stroke_paints_a_disc() {
    let out = paint(&[dot(0.25, 1.0, 1.0, StrokeMode::Paint)], 32, None, None);
    assert!(at(&out, 16, 16) > 0.99, "centre is painted");
    assert_eq!(at(&out, 0, 0), 0.0, "a far corner is untouched");
}

#[test]
fn erase_removes_what_was_painted() {
    let painted = dot(0.4, 1.0, 1.0, StrokeMode::Paint);
    let erased = dot(0.15, 1.0, 1.0, StrokeMode::Erase);
    let out = paint(&[painted, erased], 32, None, None);
    assert_eq!(at(&out, 16, 16), 0.0, "centre erased back to 0");
    assert!(at(&out, 16, 26) > 0.5, "the surrounding ring survives");
}

#[test]
fn soft_brush_falls_off() {
    let out = paint(&[dot(0.3, 1.0, 0.0, StrokeMode::Paint)], 64, None, None);
    let centre = at(&out, 32, 32);
    let mid = at(&out, 44, 32);
    assert!(centre > 0.99, "soft brush is full at the centre: {centre}");
    assert!(mid > 0.01 && mid < centre, "and falls off toward the edge: {mid}");
}

#[test]
fn paint_is_resolution_independent() {
    let strokes = [dot(0.25, 1.0, 0.5, StrokeMode::Paint)];
    let lo = paint(&strokes, 32, None, None);
    let hi = paint(&strokes, 96, None, None);
    assert!((at(&lo, 16, 16) - at(&hi, 48, 48)).abs() < 0.02, "centres match across resolution");
}

#[test]
fn paint_is_byte_identical_across_runs() {
    let strokes = [dot(0.25, 1.0, 0.5, StrokeMode::Paint)];
    let run = || bits(heights(&paint(&strokes, 32, None, None)));
    assert_eq!(run(), run());
}

#[test]
fn a_wired_backdrop_is_carried_for_display() {
    let ground = flat(16, 0.7);
    let out = paint(&[dot(0.25, 1.0, 1.0, StrokeMode::Paint)], 16, Some(&ground), None);
    assert!(at(&out, 8, 8) > 0.99, "the mask stays on the height layer");
    assert_eq!(
        layer(&out, BACKDROP).get(0, 0).unwrap(),
        0.7,
        "the backdrop terrain is carried on the backdrop layer"
    );
}

#[test]
fn a_wired_mask_seeds_the_composite() {
    let out = paint(&[], 16, None, Some(&flat(16, 0.5)));
    assert!(
        heights(&out).iter().all(|v| (v - 0.5).abs() < 1e-6),
        "no strokes leaves the base mask untouched"
    );
}

#[test]
fn paint_adds_to_the_base_mask() {
    let out = paint(&[dot(0.25, 1.0, 1.0, StrokeMode::Paint)], 32, None, Some(&flat(32, 0.3)));
    assert!(at(&out, 16, 16) > 0.99, "paint builds the centre toward 1: {}", at(&out, 16, 16));
    assert!((at(&out, 0, 0) - 0.3).abs() < 1e-6, "a far corner keeps the base mask");
}

#[test]
fn erase_removes_from_the_base_mask() {
    let out = paint(&[dot(0.25, 1.0, 1.0, StrokeMode::Erase)], 32, None, Some(&flat(32, 1.0)));
    assert_eq!(at(&out, 16, 16), 0.0, "erase clears the centre of the base mask");
    assert_eq!(at(&out, 0, 0), 1.0, "a far corner stays selected");
}

#[test]
fn no_backdrop_layer_when_unwired() {
    let out = paint(&[], 16, None, None);
    assert!(out.layer(BACKDROP).is_none(), "an unwired Paint carries no backdrop layer");
}

#[test]
fn empty_strokes_pass_the_base_through() {
    let out = sculpt(Some(&flat(16, 0.3)), &[], 16);
    assert!(
        heights(&out).iter().all(|v| (v - 0.3).abs() < 1e-6),
        "with no strokes the base is unchanged"
    );
}

#[test]
fn with_no_input_it_sculpts_from_a_zero_field() {
    let out = sculpt(None, &[dot(0.25, 1.0, 1.0, StrokeMode::Paint)], 32);
    assert!(
        (at(&out, 16, 16) - 1.0).abs() < 0.005,
        "a full-strength raise lifts the centre to 1 from zero: {}",
        at(&out, 16, 16)
    );
    assert_eq!(at(&out, 0, 0), 0.0, "a far corner stays at zero");
}

#[test]
fn raise_adds_the_strength() {
    let out = sculpt(Some(&flat(32, 0.3)), &[dot(0.25, 0.5, 1.0, StrokeMode::Paint)], 32);
    assert!(
        (at(&out, 16, 16) - 0.8).abs() < 0.005,
        "centre raised by the strength: {} vs 0.8",
        at(&out, 16, 16)
    );
    assert!((at(&out, 0, 0) - 0.3).abs() < 1e-6, "a far corner keeps the base");
}

#[test]
fn lower_subtracts_the_strength() {
    let out = sculpt(Some(&flat(32, 0.6)), &[dot(0.25, 0.4, 1.0, StrokeMode::Erase)], 32);
    assert!(
        (at(&out, 16, 16) - 0.2).abs() < 0.005,
        "centre lowered by the strength: {} vs 0.2",
        at(&out, 16, 16)
    );
}

#[test]
fn overlapping_strokes_accumulate() {
    let base = flat(32, 0.2);
    let raise = dot(0.25, 1.0, 1.0, StrokeMode::Paint);
    let one = sculpt(Some(&base), &[raise], 32);
    let two = sculpt(Some(&base), &[raise, raise], 32);
    let d1 = at(&one, 16, 16) - 0.2;
    let d2 = at(&two, 16, 16) - 0.2;
    assert!(d1 > 0.0, "one raise stroke lifts the surface: {d1}");
    assert!(
        (d2 - 2.0 * d1).abs() < 1e-4,
        "two raise strokes stack to about twice one: {d2} vs {}",
        2.0 * d1
    );
}

#[test]
fn the_range_is_not_clamped_either_way() {
    let peak = sculpt(Some(&flat(32, 0.95)), &[dot(0.25, 1.0, 1.0, StrokeMode::Paint)], 32);
    assert!(at(&peak, 16, 16) > 1.0, "a full stroke exceeds 1 without clamping: {}", at(&peak, 16, 16));
    let pit = sculpt(Some(&flat(32, 0.05)), &[dot(0.25, 1.0, 1.0, StrokeMode::Erase)], 32);
    assert!(at(&pit, 16, 16) < 0.0, "a full stroke drops below 0 without clamping: {}", at(&pit, 16, 16));
}

#[test]
fn other_layers_pass_through_and_the_brush_is_not_mask_gated() {
    let base = with_layer(flat(16, 0.4), MASK, Layer::filled(16, 16, 0.7));
    let out = sculpt(Some(&base), &[dot(0.3, 1.0, 1.0, StrokeMode::Paint)], 16);
    assert_eq!(
        layer(&out, MASK).get(0, 0).unwrap(),
        0.7,
        "the mask layer passes through untouched"
    );
    assert!(
        (at(&out, 8, 8) - 1.4).abs() < 0.005,
        "the raise applies at full strength regardless of the mask layer: {}",
        at(&out, 8, 8)
    );
}

#[test]
fn sculpt_is_resolution_independent() {
    let strokes = [dot(0.25, 0.5, 0.5, StrokeMode::Paint)];
    let lo = sculpt(Some(&flat(32, 0.2)), &strokes, 32);
    let hi = sculpt(Some(&flat(96, 0.2)), &strokes, 96);
    assert!((at(&lo, 16, 16) - at(&hi, 48, 48)).abs() < 0.02, "centres match across resolution");
}

#[test]
fn sculpt_is_byte_identical_across_runs() {
    let base = flat(32, 0.2);
    let run = || bits(heights(&sculpt(Some(&base), &[dot(0.25, 0.5, 0.5, StrokeMode::Paint)], 32)));
    assert_eq!(run(), run());
}

#[test]
fn a_sculpted_base_keeps_its_own_size() {
    let out = sculpt(Some(&flat(8, 0.1)), &[], 32);
    assert_eq!((out.width, out.height), (8, 8));
}
