#![allow(dead_code)]
use ymir_nodes::field::{Field, Layer, HEIGHT};
use ymir_nodes::{Falloff, Gradient, Polygon, Radial, Rect, Ring};

/// The part of the world a field covers.
#[derive(Clone, Copy, Debug, PartialEq)]
struct Region {
    min_x: f64,
    min_y: f64,
    max_x: f64,
    max_y: f64,
}

const UNIT: Region = Region { min_x: 0.0, min_y: 0.0, max_x: 1.0, max_y: 1.0 };

impl Region {
    fn width(&self) -> f64 {
        self.max_x - self.min_x
    }

    fn height(&self) -> f64 {
        self.max_y - self.min_y
    }
}

type Terrain = Field<f32, Region>;

fn terrain(width: usize, height: usize, cell: impl Fn(usize, usize) -> f32) -> Terrain {
    let mut field = Field::new(width, height, UNIT);
    field.set_layer(HEIGHT, Layer::from_fn(width, height, &cell));
    field
}

fn with_layer(mut field: Terrain, name: &str, layer: Layer<f32>) -> Terrain {
    field.set_layer(name, layer);
    field
}

fn layer<'a>(field: &'a Terrain, name: &str) -> &'a Layer<f32> {
    field.layer(name).expect("the layer is there")
}

fn heights(field: &Terrain) -> &[f32] {
    &layer(field, HEIGHT).cells
}

/// The exact bits of a layer, for comparing results byte by byte.
fn bits(values: &[f32]) -> Vec<u32> {
    values.iter().map(|v| v.to_bits()).collect()
}

fn at(field: &Terrain, x: usize, y: usize) -> f32 {
    layer(field, HEIGHT).get(x, y).expect("the cell is on the field")
}

fn sum(field: &Terrain) -> f64 {
    heights(field).iter().map(|&v| f64::from(v)).sum()
}

/// What the world is, as far as the nodes read it.
#[derive(Clone, Copy)]
struct World {
    width: usize,
    height: usize,
    seed: u64,
    extent: f64,
    tall: f64,
    cancelled: bool,
}

impl World {
    fn new(width: usize, height: usize, seed: u64) -> Self {
        World { width, height, seed, extent: 1.0, tall: 1.0, cancelled: false }
    }

    fn with_extent(self, extent: f64) -> Self {
        World { extent, ..self }
    }

    fn with_height(self, tall: f64) -> Self {
        World { tall, ..self }
    }

    fn cancelled(self) -> Self {
        World { cancelled: true, ..self }
    }

    fn meters_per_cell(&self) -> f64 {
        self.extent / self.width as f64
    }

    fn world_to_cells(&self, meters: f64) -> f64 {
        meters / self.meters_per_cell()
    }

    fn slope_scale(&self) -> f64 {
        self.tall / self.meters_per_cell()
    }
}

type Point = (f64, f64);

const MIDDLE: Point = (0.5, 0.5);

fn smoothstep(low: f32, high: f32, x: f32) -> f32 {
    let t = if (high - low).abs() < 1e-9 {
        if x >= high { 1.0 } else { 0.0 }
    } else {
        ((x - low) / (high - low)).clamp(0.0, 1.0)
    };
    t * t * (3.0 - 2.0 * t)
}

/// A position over the whole world, in cells of this field.
fn center_cell(center: Point, c: &World) -> Point {
    (
        (center.0 - UNIT.min_x) / UNIT.width() * c.width as f64,
        (center.1 - UNIT.min_y) / UNIT.height() * c.height as f64,
    )
}

fn rotate((x, y): Point, angle: f64) -> Point {
    let (s, c) = angle.sin_cos();
    (x * c - y * s, x * s + y * c)
}

fn offset(x: usize, y: usize, center: Point) -> Point {
    ((x as f64 + 0.5) - center.0, (y as f64 + 0.5) - center.1)
}

/// A square world of `res` cells and `extent` meters.
fn world(res: usize, extent: f64) -> World {
    World::new(res, res, 0).with_extent(extent)
}

fn falloff(c: &World, radius: f64, center: Point) -> Terrain {
    let radius = c.world_to_cells(radius.max(0.0));
    let center = center_cell(center, c);
    Falloff::eval(c.width, c.height, UNIT, &|x: usize, y: usize| {
        let (dx, dy) = offset(x, y, center);
        let d = (dx * dx + dy * dy).sqrt();
        if radius > 0.0 { (d / radius).min(1.0) as f32 } else { 1.0 }
    })
}

fn gradient(c: &World, angle: f64, width: f64) -> Terrain {
    let band = c.world_to_cells(width.max(0.0));
    let angle = angle.to_radians();
    let dir = (angle.cos(), angle.sin());
    let center = center_cell(MIDDLE, c);
    Gradient::eval(c.width, c.height, UNIT, &|x: usize, y: usize| {
        let (ox, oy) = offset(x, y, center);
        let s = ox * dir.0 + oy * dir.1;
        if band > 0.0 {
            smoothstep(0.0, 1.0, (0.5 + s / band) as f32)
        } else if s >= 0.0 {
            1.0
        } else {
            0.0
        }
    })
}

fn radial(c: &World, radius: f64, center: Point) -> Terrain {
    let radius = c.world_to_cells(radius.max(0.0));
    let center = center_cell(center, c);
    Radial::eval(c.width, c.height, UNIT, &|x: usize, y: usize| {
        let (dx, dy) = offset(x, y, center);
        let d = (dx * dx + dy * dy).sqrt();
        let t = if radius > 0.0 { (d / radius) as f32 } else { f32::INFINITY };
        1.0 - smoothstep(0.0, 1.0, t)
    })
}

fn ring(c: &World, radius: f64, width: f64, center: Point) -> Terrain {
    let radius = c.world_to_cells(radius.max(0.0));
    let flank = c.world_to_cells(width.max(0.0));
    let center = center_cell(center, c);
    Ring::eval(c.width, c.height, UNIT, &|x: usize, y: usize| {
        let (dx, dy) = offset(x, y, center);
        let apart = ((dx * dx + dy * dy).sqrt() - radius).abs();
        if flank > 0.0 { 1.0 - smoothstep(0.0, 1.0, (apart / flank) as f32) } else { 0.0 }
    })
}

fn eased(outside: f64, falloff: f64) -> f32 {
    if falloff > 0.0 {
        1.0 - smoothstep(0.0, 1.0, (outside / falloff) as f32)
    } else if outside > 0.0 {
        0.0
    } else {
        1.0
    }
}

fn rect(c: &World, extent: Point, falloff: f64, rotation: f64, center: Point) -> Terrain {
    let half = (
        c.world_to_cells(extent.0.max(0.0)) / 2.0,
        c.world_to_cells(extent.1.max(0.0)) / 2.0,
    );
    let falloff = c.world_to_cells(falloff.max(0.0));
    let turn = -rotation.to_radians();
    let center = center_cell(center, c);
    Rect::eval(c.width, c.height, UNIT, &|x: usize, y: usize| {
        let (lx, ly) = rotate(offset(x, y, center), turn);
        let (qx, qy) = (lx.abs() - half.0, ly.abs() - half.1);
        eased((qx.max(0.0).powi(2) + qy.max(0.0).powi(2)).sqrt(), falloff)
    })
}

fn polygon(c: &World, (radius, sides, falloff): (f64, i64, f64), rotation: f64, center: Point) -> Terrain {
    let radius = c.world_to_cells(radius.max(0.0));
    let falloff = c.world_to_cells(falloff.max(0.0));
    let sides = Polygon::sides(sides);
    let turn = -rotation.to_radians();
    let center = center_cell(center, c);
    let seg = std::f64::consts::TAU / sides as f64;
    let apothem = radius * (std::f64::consts::PI / sides as f64).cos();
    let base = -std::f64::consts::FRAC_PI_2 + 0.5 * seg;
    Polygon::eval(c.width, c.height, UNIT, &|x: usize, y: usize| {
        let (lx, ly) = rotate(offset(x, y, center), turn);
        let mut most = f64::NEG_INFINITY;
        for k in 0..sides {
            let (s, c) = (base + k as f64 * seg).sin_cos();
            most = most.max(lx * c + ly * s);
        }
        eased((most - apothem).max(0.0), falloff)
    })
}

fn in_unit_range(field: &Terrain) -> bool {
    heights(field).iter().all(|v| (0.0..=1.0).contains(v))
}

fn all_or_nothing(field: &Terrain) -> bool {
    heights(field).iter().all(|&v| v == 0.0 || v == 1.0)
}

/// The nodes' default settings.
const GRADIENT_WIDTH: f64 = 1024.0;
const RADIUS: f64 = 500.0;
const RING: (f64, f64) = (300.0, 100.0);
const BOX: (Point, f64) = ((500.0, 300.0), 120.0);
const NGON: (f64, i64, f64) = (400.0, 6, 120.0);

#[test]
fn falloff_eval_is_deterministic() {
    let c = world(64, 1024.0);
    assert_eq!(bits(heights(&falloff(&c, 500.0, MIDDLE))), bits(heights(&falloff(&c, 500.0, MIDDLE))));
}

#[test]
fn center_is_zero_and_edge_is_one() {
    let out = falloff(&world(64, 64.0), 20.0, MIDDLE);
    assert!(at(&out, 32, 32) < 0.05, "center should be ~0");
    assert!((at(&out, 52, 32) - 1.0).abs() < 0.05, "radius edge should be ~1");
    assert_eq!(at(&out, 63, 32), 1.0, "beyond radius is clamped to 1");
}

#[test]
fn the_ramp_is_linear_not_smoothstepped() {
    let out = falloff(&world(64, 64.0), 40.0, MIDDLE);
    assert!((at(&out, 42, 32) - 0.25).abs() < 0.05, "quarter should be ~0.25");
    assert!((at(&out, 62, 32) - 0.75).abs() < 0.05, "three-quarter should be ~0.75");
}

#[test]
fn falloff_output_stays_in_unit_range() {
    assert!(in_unit_range(&falloff(&world(48, 1024.0), 500.0, MIDDLE)));
}

#[test]
fn the_center_param_moves_the_cone() {
    let out = falloff(&world(64, 64.0), 80.0, (0.0, 0.5));
    assert!(at(&out, 0, 32) < at(&out, 32, 32));
    assert!(at(&out, 32, 32) < at(&out, 63, 32));
}

#[test]
fn a_collapsed_radius_is_a_flat_one_field() {
    let out = falloff(&world(16, 16.0), 0.0, MIDDLE);
    for &v in heights(&out) {
        assert_eq!(v, 1.0);
    }
}

#[test]
fn gradient_eval_is_deterministic() {
    let c = world(64, 1024.0);
    assert_eq!(bits(heights(&gradient(&c, 0.0, GRADIENT_WIDTH))), bits(heights(&gradient(&c, 0.0, GRADIENT_WIDTH))));
}

#[test]
fn the_ramp_increases_along_the_angle() {
    let out = gradient(&world(64, 1024.0), 0.0, GRADIENT_WIDTH);
    assert!(at(&out, 0, 32) < at(&out, 32, 32));
    assert!(at(&out, 32, 32) < at(&out, 63, 32));
}

#[test]
fn the_center_line_is_the_half_value() {
    let out = gradient(&world(64, 1024.0), 0.0, GRADIENT_WIDTH);
    let center = at(&out, 32, 32);
    assert!((center - 0.5).abs() < 0.05, "center should be ~0.5, got {center}");
}

#[test]
fn the_angle_rotates_the_ramp() {
    let out = gradient(&world(64, 1024.0), 90.0, GRADIENT_WIDTH);
    assert!(at(&out, 32, 0) < at(&out, 32, 63));
    assert!((at(&out, 0, 32) - at(&out, 63, 32)).abs() < 0.01);
}

#[test]
fn gradient_output_stays_in_unit_range() {
    assert!(in_unit_range(&gradient(&world(48, 1024.0), 0.0, GRADIENT_WIDTH)));
}

#[test]
fn a_narrower_band_is_a_steeper_ramp() {
    let narrow = gradient(&world(64, 1024.0), 0.0, 64.0);
    let wide = gradient(&world(64, 1024.0), 0.0, 4096.0);
    assert!(at(&narrow, 40, 32) > at(&wide, 40, 32));
}

#[test]
fn a_collapsed_band_is_a_hard_step() {
    let out = gradient(&world(16, 1024.0), 0.0, 0.0);
    assert!(all_or_nothing(&out));
    assert_eq!(at(&out, 0, 8), 0.0);
    assert_eq!(at(&out, 15, 8), 1.0);
}

#[test]
fn radial_eval_is_deterministic() {
    let c = world(64, 1024.0);
    assert_eq!(bits(heights(&radial(&c, RADIUS, MIDDLE))), bits(heights(&radial(&c, RADIUS, MIDDLE))));
}

#[test]
fn the_center_is_the_peak_and_corners_fall_off() {
    let out = radial(&world(64, 64.0), 20.0, MIDDLE);
    let center = at(&out, 32, 32);
    assert!(center > 0.99, "center should peak near 1, got {center}");
    assert_eq!(at(&out, 0, 0), 0.0);
    assert_eq!(at(&out, 63, 63), 0.0);
}

#[test]
fn radial_output_stays_in_unit_range() {
    assert!(in_unit_range(&radial(&world(48, 1024.0), RADIUS, MIDDLE)));
}

#[test]
fn a_larger_radius_makes_a_wider_dome() {
    let small = radial(&world(64, 64.0), 10.0, MIDDLE);
    let large = radial(&world(64, 64.0), 30.0, MIDDLE);
    assert!(at(&large, 48, 32) > at(&small, 48, 32));
}

#[test]
fn the_center_param_moves_the_peak() {
    let out = radial(&world(64, 64.0), 80.0, (0.0, 0.5));
    assert!(at(&out, 0, 32) > at(&out, 32, 32));
    assert!(at(&out, 32, 32) > at(&out, 63, 32));
}

#[test]
fn a_larger_world_extent_shrinks_the_dome_in_cells() {
    let small_world = radial(&world(64, 64.0), 20.0, MIDDLE);
    let big_world = radial(&world(64, 256.0), 20.0, MIDDLE);
    assert!(at(&small_world, 44, 32) > at(&big_world, 44, 32));
}

#[test]
fn a_collapsed_radius_is_a_flat_zero_field() {
    let out = radial(&world(16, 16.0), 0.0, MIDDLE);
    for &v in heights(&out) {
        assert_eq!(v, 0.0);
    }
}

#[test]
fn ring_eval_is_deterministic() {
    let c = world(64, 1024.0);
    let run = || bits(heights(&ring(&c, RING.0, RING.1, MIDDLE)));
    assert_eq!(run(), run());
}

#[test]
fn the_peak_is_on_the_circle_not_the_center() {
    let out = ring(&world(64, 64.0), 20.0, 5.0, MIDDLE);
    let on_ring = at(&out, 52, 32);
    assert!(on_ring > 0.9, "ring should peak near 1, got {on_ring}");
    assert_eq!(at(&out, 32, 32), 0.0);
    assert_eq!(at(&out, 0, 0), 0.0);
}

#[test]
fn ring_output_stays_in_unit_range() {
    assert!(in_unit_range(&ring(&world(48, 1024.0), RING.0, RING.1, MIDDLE)));
}

#[test]
fn a_wider_flank_fills_toward_the_center() {
    let narrow = ring(&world(64, 64.0), 20.0, 5.0, MIDDLE);
    let wide = ring(&world(64, 64.0), 20.0, 15.0, MIDDLE);
    assert!(at(&wide, 42, 32) > at(&narrow, 42, 32));
}

#[test]
fn the_center_param_moves_the_ring() {
    let c = world(64, 64.0);
    let centered = ring(&c, 10.0, 4.0, MIDDLE);
    let shifted = ring(&c, 10.0, 4.0, (0.25, 0.5));
    assert!(at(&shifted, 26, 32) > at(&centered, 26, 32));
}

#[test]
fn a_collapsed_flank_is_a_flat_zero_field() {
    let out = ring(&world(16, 16.0), RING.0, 0.0, MIDDLE);
    for &v in heights(&out) {
        assert_eq!(v, 0.0);
    }
}

#[test]
fn rect_eval_is_deterministic() {
    let c = world(64, 1024.0);
    let run = || bits(heights(&rect(&c, BOX.0, BOX.1, 0.0, MIDDLE)));
    assert_eq!(run(), run());
}

#[test]
fn rect_the_core_is_flat_and_outside_is_zero() {
    let out = rect(&world(64, 64.0), (20.0, 20.0), 4.0, 0.0, MIDDLE);
    assert!(at(&out, 32, 32) > 0.99, "core should be flat 1");
    assert_eq!(at(&out, 0, 0), 0.0);
    assert_eq!(at(&out, 63, 63), 0.0);
}

#[test]
fn rect_output_stays_in_unit_range() {
    assert!(in_unit_range(&rect(&world(48, 1024.0), BOX.0, BOX.1, 0.0, MIDDLE)));
}

#[test]
fn a_wider_extent_reaches_further_along_its_axis() {
    let out = rect(&world(64, 64.0), (40.0, 10.0), 2.0, 0.0, MIDDLE);
    assert!(at(&out, 40, 32) > 0.9, "inside along the wide axis");
    assert!(at(&out, 32, 40) < 0.1, "outside along the short axis");
}

#[test]
fn rotation_turns_the_rectangle() {
    let out = rect(&world(64, 64.0), (40.0, 10.0), 2.0, 90.0, MIDDLE);
    assert!(at(&out, 32, 40) > at(&out, 40, 32));
}

#[test]
fn the_center_param_moves_the_box() {
    let out = rect(&world(64, 64.0), (20.0, 20.0), 4.0, 0.0, (0.0, 0.5));
    assert!(at(&out, 2, 32) > at(&out, 63, 32));
}

#[test]
fn a_collapsed_falloff_is_a_hard_box() {
    assert!(all_or_nothing(&rect(&world(32, 32.0), (20.0, 20.0), 0.0, 0.0, MIDDLE)));
}

#[test]
fn polygon_eval_is_deterministic() {
    let c = world(64, 1024.0);
    let run = || bits(heights(&polygon(&c, NGON, 0.0, MIDDLE)));
    assert_eq!(run(), run());
}

#[test]
fn polygon_the_core_is_flat_and_outside_is_zero() {
    let out = polygon(&world(64, 64.0), (20.0, 6, 4.0), 0.0, MIDDLE);
    assert!(at(&out, 32, 32) > 0.99, "core should be flat 1");
    assert_eq!(at(&out, 0, 0), 0.0);
    assert_eq!(at(&out, 63, 63), 0.0);
}

#[test]
fn polygon_output_stays_in_unit_range() {
    assert!(in_unit_range(&polygon(&world(48, 1024.0), NGON, 0.0, MIDDLE)));
}

#[test]
fn more_sides_reach_further_toward_the_circumradius() {
    let tri = polygon(&world(64, 64.0), (20.0, 3, 2.0), 0.0, MIDDLE);
    let hex = polygon(&world(64, 64.0), (20.0, 6, 2.0), 0.0, MIDDLE);
    assert!(at(&hex, 32, 46) > at(&tri, 32, 46));
}

#[test]
fn rotation_turns_the_polygon() {
    let up0 = polygon(&world(64, 64.0), (20.0, 3, 2.0), 0.0, MIDDLE);
    let up180 = polygon(&world(64, 64.0), (20.0, 3, 2.0), 180.0, MIDDLE);
    assert!(at(&up0, 32, 18) > at(&up180, 32, 18));
}

#[test]
fn a_collapsed_falloff_is_a_hard_polygon() {
    assert!(all_or_nothing(&polygon(&world(32, 32.0), (20.0, 5, 0.0), 0.0, MIDDLE)));
}

#[test]
fn fewer_than_three_sides_clamps_to_a_triangle() {
    let two = polygon(&world(48, 1024.0), (300.0, 2, 120.0), 0.0, MIDDLE);
    let three = polygon(&world(48, 1024.0), (300.0, 3, 120.0), 0.0, MIDDLE);
    assert_eq!(bits(heights(&two)), bits(heights(&three)));
}

#[test]
fn the_center_param_moves_the_polygon() {
    let out = polygon(&world(64, 64.0), (20.0, 6, 4.0), 0.0, (0.0, 0.5));
    assert!(at(&out, 2, 32) > at(&out, 63, 32));
}

#[test]
fn sides_below_a_triangle_are_raised() {
    assert_eq!(Polygon::sides(i64::MIN), 3);
    assert_eq!(Polygon::sides(2), 3);
    assert_eq!(Polygon::sides(3), 3);
    assert_eq!(Polygon::sides(7), 7);
}

#[test]
fn a_generated_field_holds_only_the_height() {
    let out = radial(&world(4, 4.0), 2.0, MIDDLE);
    assert_eq!((out.width, out.height, out.region), (4, 4, UNIT));
    assert_eq!(out.layer_names(), [HEIGHT]);
}
