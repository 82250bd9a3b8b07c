#![allow(dead_code)]
use ymir_nodes::field::{Field, Layer, HEIGHT};
use ymir_nodes::field::MASK;
use ymir_nodes::nodes::occlusion::MarchFns;
use ymir_nodes::noise::{gradient, layer_octaves};
use ymir_nodes::shaping::Span;
use ymir_nodes::{GrowShrink, Height, Occlusion, Slope, Warp};

/// The part of the world a field covers.
#[derive(Clone, Copy, Debug, PartialEq)]
struct Region {
    min_x: f64,
    min_y: f64,
    max_x: f64,
    max_y: f64,
}

const UNIT: Region = Region { min_x: 0.0, min_y: 0.0, max_x: 1.0, max_y: 1.0 };

impl Region {
    fn width(&self) -> f64 {
        self.max_x - self.min_x
    }

    fn height(&self) -> f64 {
        self.max_y - self.min_y
    }
}

type Terrain = Field<f32, Region>;

fn terrain(width: usize, height: usize, cell: impl Fn(usize, usize) -> f32) -> Terrain {
    let mut field = Field::new(width, height, UNIT);
    field.set_layer(HEIGHT, Layer::from_fn(width, height, &cell));
    field
}

fn with_layer(mut field: Terrain, name: &str, layer: Layer<f32>) -> Terrain {
    field.set_layer(name, layer);
    field
}

fn layer<'a>(field: &'a Terrain, name: &str) -> &'a Layer<f32> {
    field.layer(name).expect("the layer is there")
}

fn heights(field: &Terrain) -> &[f32] {
    &layer(field, HEIGHT).cells
}

/// The exact bits of a layer, for comparing results byte by byte.
fn bits(values: &[f32]) -> Vec<u32> {
    values.iter().map(|v| v.to_bits()).collect()
}

fn at(field: &Terrain, x: usize, y: usize) -> f32 {
    layer(field, HEIGHT).get(x, y).expect("the cell is on the field")
}

fn sum(field: &Terrain) -> f64 {
    heights(field).iter().map(|&v| f64::from(v)).sum()
}

/// What the world is, as far as the nodes read it.
#[derive(Clone, Copy)]
struct World {
    width: usize,
    height: usize,
    seed: u64,
    extent: f64,
    tall: f64,
    cancelled: bool,
}

impl World {
    fn new(width: usize, height: usize, seed: u64) -> Self {
        World { width, height, seed, extent: 1.0, tall: 1.0, cancelled: false }
    }

    fn with_extent(self, extent: f64) -> Self {
        World { extent, ..self }
    }

    fn with_height(self, tall: f64) -> Self {
        World { tall, ..self }
    }

    fn cancelled(self) -> Self {
        World { cancelled: true, ..self }
    }

    fn meters_per_cell(&self) -> f64 {
        self.extent / self.width as f64
    }

    fn world_to_cells(&self, meters: f64) -> f64 {
        meters / self.meters_per_cell()
    }

    fn slope_scale(&self) -> f64 {
        self.tall / self.meters_per_cell()
    }
}

fn smoothstep(low: f32, high: f32, x: f32) -> f32 {
    let t = if (high - low).abs() < 1e-9 {
        if x >= high { 1.0 } else { 0.0 }
    } else {
        ((x - low) / (high - low)).clamp(0.0, 1.0)
    };
    t * t * (3.0 - 2.0 * t)
}

/// How far `x` is inside the band from `min` to `max`.
fn band(min: f32, max: f32, falloff: f32, x: f32) -> f32 {
    if min > max {
        return 0.0;
    }
    let lower = smoothstep(min - falloff, min, x);
    let upper = if x <= max { 1.0 } else { 1.0 - smoothstep(max, max + falloff, x) };
    (lower * upper).clamp(0.0, 1.0)
}

fn flat(width: usize, height: usize, value: f32) -> Terrain {
    terrain(width, height, |_, _| value)
}

/// A ramp along the rows from `lo` to `hi`.
fn slanted(size: usize, lo: f32, hi: f32) -> Terrain {
    terrain(size, size, |x, _| lo + (hi - lo) * x as f32 / (size - 1) as f32)
}

fn with_flow(field: Terrain, value: f32) -> Terrain {
    let (width, height) = (field.width, field.height);
    with_layer(field, "flow", Layer::filled(width, height, value))
}

fn flow_of(field: &Terrain) -> f32 {
    layer(field, "flow").get(0, 0).unwrap()
}

fn in_unit_range(field: &Terrain) -> bool {
    heights(field).iter().all(|v| (0.0..=1.0).contains(v))
}

/// The lowest and highest value.
fn value_range(values: &Vec<f32>) -> (f32, f32) {
    let lo = values.iter().copied().fold(f32::INFINITY, f32::min);
    let hi = values.iter().copied().fold(f32::NEG_INFINITY, f32::max);
    if values.is_empty() { (0.0, 0.0) } else { (lo, hi) }
}

/// The twelve unit gradient directions, every 30 degrees.
const GRADIENT_DIRS: [(f32, f32); 12] = [
    (1.0, 0.0),
    (0.866_025_4, 0.5),
    (0.5, 0.866_025_4),
    (0.0, 1.0),
    (-0.5, 0.866_025_4),
    (-0.866_025_4, 0.5),
    (-1.0, 0.0),
    (-0.866_025_4, -0.5),
    (-0.5, -0.866_025_4),
    (0.0, -1.0),
    (0.5, -0.866_025_4),
    (0.866_025_4, -0.5),
];

fn corner(seed: u64, ix: i32, iy: i32, dx: f32, dy: f32) -> f32 {
    let t = 0.5 - dx * dx - dy * dy;
    if t <= 0.0 {
        0.0
    } else {
        let (gx, gy) = GRADIENT_DIRS[gradient(seed, ix, iy)];
        let t2 = t * t;
        t2 * t2 * (gx * dx + gy * dy)
    }
}

/// Simplex noise, roughly in `[-1, 1]`.
fn simplex(seed: u64, x: f32, y: f32) -> f32 {
    let s = (x + y) * 0.366_025_42;
    let i = (x + s).floor();
    let j = (y + s).floor();
    let (ii, jj) = (i as i32, j as i32);
    let g = 0.211_324_87;
    let t = (i + j) * g;
    let x0 = x - (i - t);
    let y0 = y - (j - t);
    let (i1, j1) = if x0 > y0 { (1, 0) } else { (0, 1) };
    let n0 = corner(seed, ii, jj, x0, y0);
    let n1 = corner(seed, ii + i1, jj + j1, x0 - i1 as f32 + g, y0 - j1 as f32 + g);
    let n2 = corner(seed, ii + 1, jj + 1, x0 - 1.0 + 2.0 * g, y0 - 1.0 + 2.0 * g);
    100.0 * (n0 + n1 + n2)
}

/// Fractal noise, roughly in `[-1, 1]`: the octaves' sum, their amplitude, and the next octave's
/// frequency and amplitude.
fn fractal(seed: u64, x: f32, y: f32, octaves: u32, lacunarity: f32, gain: f32) -> f32 {
    let step = |(sum, total, frequency, amplitude): (f32, f32, f32, f32), _: u32, seed: u64| {
        (
            sum + amplitude * simplex(seed, x * frequency, y * frequency),
            total + amplitude,
            frequency * lacunarity,
            amplitude * gain,
        )
    };
    let (sum, total, _, _) = layer_octaves(seed, octaves, (0.0, 0.0, 1.0, 1.0), &step);
    if total > 0.0 {
        sum / total
    } else {
        0.0
    }
}

/// The default fractal terrain.
fn fractal_terrain(width: usize, height: usize, seed: u64) -> Terrain {
    terrain(width, height, |x, y| {
        let u = (x as f64 + 0.5) / width as f64;
        let v = (y as f64 + 0.5) / height as f64;
        let n = fractal(seed, (u * 2.0) as f32, (v * 2.0) as f32, 5, 2.0, 0.5);
        (0.5 * n + 0.5).clamp(0.0, 1.0)
    })
}

fn elevation(input: &Terrain, output: Option<&str>, min: f32, max: f32, falloff: f32) -> Terrain {
    Height::eval(input, 0.0, output, &|v: f32| band(min, max, falloff.max(0.0), v))
}

fn steepness(input: &Terrain, min: f32, max: f32, falloff: f32) -> Terrain {
    let scale = World::new(input.width, input.height, 0).slope_scale() as f32;
    Slope::eval(input, 0.0, &|dx: Span<f32>, dy: Span<f32>| {
        let gx = (dx.after - dx.before) * scale / dx.cells as f32;
        let gy = (dy.after - dy.before) * scale / dy.cells as f32;
        band(min, max, falloff.max(0.0), (gx * gx + gy * gy).sqrt().atan().to_degrees())
    })
}

/// A ramp at the given slope angle in degrees.
fn at_angle(size: usize, degrees: f32) -> Terrain {
    slanted(size, 0.0, degrees.to_radians().tan())
}

#[test]
fn measure_mode_emits_the_elevation() {
    let out = elevation(&slanted(16, 0.0, 1.0), Some("measure"), 0.4, 0.7, 0.1);
    for x in 0..16 {
        assert!((at(&out, x, 8) - x as f32 / 15.0).abs() < 1e-6);
    }
}

#[test]
fn an_elevation_inside_the_band_is_selected() {
    let out = elevation(&flat(8, 8, 0.55), None, 0.4, 0.7, 0.1);
    assert!(at(&out, 4, 4) > 0.99, "in-band elevation selects ~1");
}

#[test]
fn elevations_outside_the_band_are_excluded() {
    assert!(at(&elevation(&flat(8, 8, 0.1), None, 0.4, 0.7, 0.1), 4, 4) < 0.01);
    assert!(at(&elevation(&flat(8, 8, 0.95), None, 0.4, 0.7, 0.1), 4, 4) < 0.01);
}

#[test]
fn the_band_sits_in_the_middle_of_a_ramp() {
    let out = elevation(&slanted(32, 0.0, 1.0), None, 0.4, 0.7, 0.1);
    assert_eq!(at(&out, 0, 0), 0.0, "low elevation excluded");
    assert!(at(&out, 16, 0) > 0.9, "mid elevation selected");
    assert!(at(&out, 31, 0) < 0.01, "high elevation excluded");
}

#[test]
fn height_falloff_softens_the_edge() {
    let soft = at(&elevation(&flat(8, 8, 0.75), None, 0.4, 0.7, 0.1), 4, 4);
    let hard = at(&elevation(&flat(8, 8, 0.75), None, 0.4, 0.7, 0.0), 4, 4);
    assert!(soft > 0.05 && soft < 0.95, "edge partial under falloff: {soft}");
    assert_eq!(hard, 0.0, "no falloff is a hard cutoff");
}

#[test]
fn height_the_selection_rides_on_height_not_a_mask_layer() {
    let out = elevation(&flat(8, 8, 0.55), None, 0.4, 0.7, 0.1);
    assert!(out.layer(MASK).is_none(), "no mask layer is written");
    assert!(at(&out, 4, 4) > 0.0, "the selection is on the height layer");
}

#[test]
fn height_passes_through_other_layers() {
    let out = elevation(&with_flow(flat(8, 8, 0.55), 0.7), None, 0.4, 0.7, 0.1);
    assert_eq!(flow_of(&out), 0.7);
}

#[test]
fn height_stays_in_unit_range() {
    assert!(in_unit_range(&elevation(&slanted(16, 0.0, 1.0), None, 0.4, 0.7, 0.1)));
}

#[test]
fn height_is_deterministic() {
    let input = slanted(16, 0.0, 1.0);
    let run = || bits(heights(&elevation(&input, None, 0.4, 0.7, 0.1)));
    assert_eq!(run(), run());
}

#[test]
fn an_angle_inside_the_band_is_selected() {
    let out = steepness(&at_angle(16, 35.0), 20.0, 50.0, 10.0);
    assert!(at(&out, 8, 8) > 0.9, "in-band angle should select ~1");
}

#[test]
fn angles_outside_the_band_are_excluded() {
    let gentle = steepness(&at_angle(16, 5.0), 20.0, 50.0, 10.0);
    let steep = steepness(&at_angle(16, 80.0), 20.0, 50.0, 10.0);
    assert!(at(&gentle, 8, 8) < 0.01, "gentle slope excluded");
    assert!(at(&steep, 8, 8) < 0.01, "over-steep slope excluded");
    assert_eq!(at(&steepness(&flat(16, 16, 0.5), 20.0, 50.0, 10.0), 8, 8), 0.0);
}

#[test]
fn slope_falloff_softens_the_edge() {
    let soft = steepness(&at_angle(16, 55.0), 20.0, 50.0, 10.0);
    let hard = steepness(&at_angle(16, 55.0), 20.0, 50.0, 0.0);
    let s = at(&soft, 8, 8);
    assert!(s > 0.05 && s < 0.95, "edge should be partial under falloff: {s}");
    assert_eq!(at(&hard, 8, 8), 0.0, "no falloff is a hard cutoff");
}

#[test]
fn slope_the_selection_rides_on_height_not_a_mask_layer() {
    let out = steepness(&at_angle(16, 35.0), 20.0, 50.0, 10.0);
    assert!(out.layer(MASK).is_none(), "no mask layer is written");
    assert!(at(&out, 8, 8) > 0.0, "the selection is on the height layer");
}

#[test]
fn band_is_resolution_stable() {
    let lo = at(&steepness(&at_angle(16, 35.0), 20.0, 50.0, 10.0), 8, 8);
    let hi = at(&steepness(&at_angle(64, 35.0), 20.0, 50.0, 10.0), 32, 32);
    assert!(lo > 0.9 && hi > 0.9, "band drifted with resolution: {lo} vs {hi}");
}

#[test]
fn slope_passes_through_other_layers() {
    let out = steepness(&with_flow(at_angle(16, 35.0), 0.7), 20.0, 50.0, 10.0);
    assert_eq!(flow_of(&out), 0.7);
}

#[test]
fn slope_stays_in_unit_range() {
    assert!(in_unit_range(&steepness(&at_angle(16, 35.0), 20.0, 50.0, 10.0)));
}

#[test]
fn slope_is_deterministic() {
    let input = at_angle(16, 35.0);
    let run = || bits(heights(&steepness(&input, 20.0, 50.0, 10.0)));
    assert_eq!(run(), run());
}

fn occlusion(input: &Terrain, radius: f64, rays: i64) -> Terrain {
    let world = World::new(input.width, input.width, 0);
    let scale = world.slope_scale() as f32;
    let rays = Occlusion::rays(rays);
    let cells = world.world_to_cells(radius.max(0.0)).round() as usize;
    let reach = Occlusion::reach(cells, input.width, input.height);
    let dirs: Vec<(f32, f32)> = (0..rays)
        .map(|k| {
            let (s, c) = (std::f32::consts::TAU * k as f32 / rays as f32).sin_cos();
            (c, s)
        })
        .collect();
    let f = MarchFns {
        flat: 0.0_f32,
        at: |k: usize, x: usize, y: usize, step: usize| {
            let (dx, dy) = dirs[k];
            let s = step as f32;
            ((x as f32 + dx * s).round() as i64, (y as f32 + dy * s).round() as i64)
        },
        lift: |horizon: f32, there: f32, here: f32, step: usize| {
            horizon.max((there - here) * scale / step as f32)
        },
        plus: |sum: f32, horizon: f32| sum + horizon / (1.0 + horizon * horizon).sqrt(),
        measure: |sum: f32| (sum / rays as f32).clamp(0.0, 1.0),
    };
    Occlusion::eval(input, 0.0, &f, rays, reach)
}

fn from_centre(size: usize, x: usize, y: usize) -> f32 {
    let c = (size as f32 - 1.0) * 0.5;
    let (dx, dy) = (x as f32 - c, y as f32 - c);
    (dx * dx + dy * dy).sqrt() / c
}

fn pit(size: usize) -> Terrain {
    terrain(size, size, |x, y| from_centre(size, x, y))
}

#[test]
fn a_flat_field_is_open() {
    let out = occlusion(&flat(32, 32, 0.5), 1000.0, 16);
    assert!(sum(&out) < 1e-3, "a flat field should read as fully open");
}

#[test]
fn a_pit_centre_is_occluded_a_peak_is_open() {
    let dome = terrain(32, 32, |x, y| 1.0 - from_centre(32, x, y));
    let pit_c = at(&occlusion(&pit(32), 1000.0, 16), 16, 16);
    let dome_c = at(&occlusion(&dome, 1000.0, 16), 16, 16);
    assert!(pit_c > 0.4, "the pit centre should be strongly occluded: {pit_c}");
    assert!(dome_c < 0.05, "the dome centre should be open: {dome_c}");
    assert!(pit_c > dome_c);
}

#[test]
fn output_stays_in_range() {
    assert!(in_unit_range(&occlusion(&pit(24), 1000.0, 12)));
}

#[test]
fn a_shorter_radius_sees_less_shelter() {
    let basin = terrain(48, 48, |x, y| (from_centre(48, x, y) - 0.4).max(0.0));
    let far = at(&occlusion(&basin, 1000.0, 16), 24, 24);
    let near = at(&occlusion(&basin, 0.1, 16), 24, 24);
    assert!(far > near, "a longer radius should read more occluded: {far} vs {near}");
    assert!(near < 0.05, "the short reach sees only the flat floor: {near}");
}

#[test]
fn occlusion_passes_through_other_layers() {
    assert_eq!(flow_of(&occlusion(&with_flow(pit(16), 0.9), 1000.0, 8)), 0.9);
}

#[test]
fn occlusion_is_deterministic() {
    let input = pit(24);
    let run = || bits(heights(&occlusion(&input, 500.0, 16)));
    assert_eq!(run(), run());
}

#[test]
fn rays_and_reach_are_bounded() {
    assert_eq!((Occlusion::rays(-3), Occlusion::rays(16), Occlusion::rays(65)), (4, 16, 64));
    assert_eq!(Occlusion::reach(0, 8, 4), 1);
    assert_eq!(Occlusion::reach(5, 8, 4), 5);
    assert_eq!(Occlusion::reach(100, 8, 12), 12);
}

/// The distance in cells from each cell to the other side of the selection, positive inside.
fn signed_distance(values: &Vec<f32>, size: usize) -> Vec<f32> {
    let inside = |c: usize| values[c] >= 0.5;
    (0..values.len())
        .map(|c| {
            let mut nearest = f32::INFINITY;
            for other in (0..values.len()).filter(|&o| inside(o) != inside(c)) {
                let dx = (c % size) as f32 - (other % size) as f32;
                let dy = (c / size) as f32 - (other / size) as f32;
                nearest = nearest.min((dx * dx + dy * dy).sqrt());
            }
            let d = nearest - 0.5;
            if inside(c) { d } else { -d }
        })
        .collect()
}

fn grow(input: &Terrain, amount: f32, softness: f32) -> Terrain {
    let size = input.width;
    GrowShrink::eval(
        input,
        0.0,
        &|values: &Vec<f32>| signed_distance(values, size),
        &|d: f32| smoothstep(0.0, 1.0, (d + amount) / softness.max(1e-6) + 0.5),
    )
}

fn disk(size: usize, r: f32) -> Terrain {
    let c = (size - 1) as f32 / 2.0;
    terrain(size, size, |x, y| {
        let d = ((x as f32 - c).powi(2) + (y as f32 - c).powi(2)).sqrt();
        if d <= r { 1.0 } else { 0.0 }
    })
}

#[test]
fn growing_widens_the_selection() {
    let field = disk(48, 8.0);
    let before = at(&field, 24 + 11, 24);
    assert!(before < 0.01, "the cell starts outside the disk: {before}");
    let grown = grow(&field, 5.0, 1.0);
    assert!(
        at(&grown, 24 + 11, 24) > 0.9,
        "growing by 5 m must pull the cell into the selection"
    );
}

#[test]
fn shrinking_pulls_the_selection_in() {
    let field = disk(48, 8.0);
    let before = at(&field, 24 + 6, 24);
    assert!(before > 0.99, "the cell starts inside the disk: {before}");
    let shrunk = grow(&field, -4.0, 1.0);
    assert!(
        at(&shrunk, 24 + 6, 24) < 0.1,
        "shrinking by 4 m must push the cell out of the selection"
    );
}

#[test]
fn zero_amount_keeps_the_boundary() {
    let out = grow(&disk(64, 12.0), 0.0, 1.0);
    assert!(at(&out, 32 + 10, 32) > 0.9, "just inside stays selected");
    assert!(at(&out, 32 + 15, 32) < 0.1, "just outside stays unselected");
}

#[test]
fn softness_widens_the_edge() {
    let field = disk(64, 12.0);
    let hard = at(&grow(&field, 0.0, 0.5), 32 + 12, 32);
    let soft = at(&grow(&field, 0.0, 8.0), 32 + 12, 32);
    assert!(
        (soft - 0.5).abs() <= (hard - 0.5).abs() + 1e-4,
        "a wider softness must not produce a sharper edge"
    );
}

#[test]
fn grow_passes_through_other_layers() {
    let out = grow(&with_flow(disk(32, 8.0), 0.7), 3.0, 1.0);
    assert_eq!(flow_of(&out), 0.7, "an unrelated layer must pass through");
}

#[test]
fn grow_is_deterministic() {
    let field = disk(48, 10.0);
    let run = || bits(heights(&grow(&field, 6.0, 2.0)));
    assert_eq!(run(), run());
}

fn warp(input: &Terrain, amount: f64, own: i64, world: &World) -> Terrain {
    let cells = world.world_to_cells(amount.max(0.0)) as f32;
    let (seed_x, seed_y) = Warp::seeds(world.seed, own);
    let (width, height) = (input.width, input.height);
    Warp::eval(
        input,
        0.0,
        &|x: usize, y: usize| {
            let nx = ((x as f64 + 0.5) / width as f64) as f32 * 2.0;
            let ny = ((y as f64 + 0.5) / height as f64) as f32 * 2.0;
            let px = x as f32 + fractal(seed_x, nx, ny, 4, 2.0, 0.5) * cells;
            let py = y as f32 + fractal(seed_y, nx, ny, 4, 2.0, 0.5) * cells;
            ((px.floor() as i64, py.floor() as i64), (px - px.floor(), py - py.floor()))
        },
        &|(v00, v10, v01, v11): (f32, f32, f32, f32), (tx, ty): (f32, f32)| {
            let top = v00 + (v10 - v00) * tx;
            let bottom = v01 + (v11 - v01) * tx;
            top + (bottom - top) * ty
        },
    )
}

fn warp_world(res: usize) -> World {
    World::new(res, res, 7).with_extent(res as f64)
}

fn deviation(a: &Terrain, b: &Terrain) -> f32 {
    heights(a).iter().zip(heights(b)).map(|(p, q)| (p - q).abs()).sum()
}

#[test]
fn zero_amount_is_identity() {
    let input = slanted(32, 0.0, 1.0);
    let out = warp(&input, 0.0, 0, &warp_world(32));
    for y in 0..32 {
        for x in 0..32 {
            assert!((at(&out, x, y) - at(&input, x, y)).abs() < 1e-6);
        }
    }
}

#[test]
fn a_positive_amount_warps_the_field() {
    let input = slanted(32, 0.0, 1.0);
    let out = warp(&input, 12.0, 0, &warp_world(32));
    assert_ne!(bits(heights(&input)), bits(heights(&out)));
}

#[test]
fn a_flat_field_stays_flat() {
    let out = warp(&flat(32, 32, 0.42), 30.0, 0, &warp_world(32));
    for &v in heights(&out) {
        assert!((v - 0.42).abs() < 1e-6, "flat field gained relief: {v}");
    }
}

#[test]
fn a_larger_amount_warps_more() {
    let input = slanted(32, 0.0, 1.0);
    let c = warp_world(32);
    let small = deviation(&warp(&input, 6.0, 0, &c), &input);
    let large = deviation(&warp(&input, 18.0, 0, &c), &input);
    assert!(large > small, "more displacement should warp more: {large} vs {small}");
}

#[test]
fn the_seed_changes_the_warp() {
    let input = slanted(32, 0.0, 1.0);
    let c = warp_world(32);
    let base = warp(&input, 12.0, 0, &c);
    let rerolled = warp(&input, 12.0, 1, &c);
    assert_ne!(bits(heights(&base)), bits(heights(&rerolled)));
}

#[test]
fn warp_passes_through_other_layers() {
    let out = warp(&with_flow(slanted(32, 0.0, 1.0), 0.9), 12.0, 0, &warp_world(32));
    assert_eq!(flow_of(&out), 0.9);
}

#[test]
fn resampling_stays_in_the_input_range() {
    assert!(in_unit_range(&warp(&slanted(32, 0.0, 1.0), 30.0, 0, &warp_world(32))));
}

#[test]
fn warp_is_deterministic() {
    let input = slanted(32, 0.0, 1.0);
    let c = warp_world(32);
    let run = || bits(heights(&warp(&input, 12.0, 0, &c)));
    assert_eq!(run(), run());
}

#[test]
fn the_two_displacements_have_their_own_seeds() {
    let (a, b) = Warp::seeds(u64::MAX, 1);
    assert_eq!((a, b), (0, 0xD1B5_4A32_D192_ED03));
}
