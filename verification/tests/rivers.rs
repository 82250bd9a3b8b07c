#![allow(dead_code)]
use ymir_nodes::field::{Field, Layer, HEIGHT};
use ymir_nodes::keys::{key_bits, order_key};
use ymir_nodes::noise::{gradient, layer_octaves};
use ymir_nodes::hydrology::drainage::DrainageFns;
use ymir_nodes::hydrology::incise::largest_area;
use ymir_nodes::hydrology::normalize::log_normalize;
use ymir_nodes::nodes::rivers::{CarveFns, RiverFns};
use ymir_nodes::nodes::stream::{OutputFns, StreamFns};
use ymir_nodes::{Rivers, StreamErosion};
use ymir_nodes::talus::TalusFns;
use ymir_nodes::blur::box_blur;
use ymir_nodes::grid::Grid;

/// The part of the world a field covers.
#[derive(Clone, Copy, Debug, PartialEq)]
struct Region {
    min_x: f64,
    min_y: f64,
    max_x: f64,
    max_y: f64,
}

const UNIT: Region = Region { min_x: 0.0, min_y: 0.0, max_x: 1.0, max_y: 1.0 };

impl Region {
    fn width(&self) -> f64 {
        self.max_x - self.min_x
    }

    fn height(&self) -> f64 {
        self.max_y - self.min_y
    }
}

type Terrain = Field<f32, Region>;

fn terrain(width: usize, height: usize, cell: impl Fn(usize, usize) -> f32) -> Terrain {
    let mut field = Field::new(width, height, UNIT);
    field.set_layer(HEIGHT, Layer::from_fn(width, height, &cell));
    field
}

fn with_layer(mut field: Terrain, name: &str, layer: Layer<f32>) -> Terrain {
    field.set_layer(name, layer);
    field
}

fn layer<'a>(field: &'a Terrain, name: &str) -> &'a Layer<f32> {
    field.layer(name).expect("the layer is there")
}

fn heights(field: &Terrain) -> &[f32] {
    &layer(field, HEIGHT).cells
}

/// The exact bits of a layer, for comparing results byte by byte.
fn bits(values: &[f32]) -> Vec<u32> {
    values.iter().map(|v| v.to_bits()).collect()
}

fn at(field: &Terrain, x: usize, y: usize) -> f32 {
    layer(field, HEIGHT).get(x, y).expect("the cell is on the field")
}

fn sum(field: &Terrain) -> f64 {
    heights(field).iter().map(|&v| f64::from(v)).sum()
}

/// What the world is, as far as the nodes read it.
#[derive(Clone, Copy)]
struct World {
    width: usize,
    height: usize,
    seed: u64,
    extent: f64,
    tall: f64,
    cancelled: bool,
}

impl World {
    fn new(width: usize, height: usize, seed: u64) -> Self {
        World { width, height, seed, extent: 1.0, tall: 1.0, cancelled: false }
    }

    fn with_extent(self, extent: f64) -> Self {
        World { extent, ..self }
    }

    fn with_height(self, tall: f64) -> Self {
        World { tall, ..self }
    }

    fn cancelled(self) -> Self {
        World { cancelled: true, ..self }
    }

    fn meters_per_cell(&self) -> f64 {
        self.extent / self.width as f64
    }

    fn world_to_cells(&self, meters: f64) -> f64 {
        meters / self.meters_per_cell()
    }

    fn slope_scale(&self) -> f64 {
        self.tall / self.meters_per_cell()
    }
}

/// The twelve unit gradient directions, every 30 degrees.
const GRADIENT_DIRS: [(f32, f32); 12] = [
    (1.0, 0.0),
    (0.866_025_4, 0.5),
    (0.5, 0.866_025_4),
    (0.0, 1.0),
    (-0.5, 0.866_025_4),
    (-0.866_025_4, 0.5),
    (-1.0, 0.0),
    (-0.866_025_4, -0.5),
    (-0.5, -0.866_025_4),
    (0.0, -1.0),
    (0.5, -0.866_025_4),
    (0.866_025_4, -0.5),
];

fn corner(seed: u64, ix: i32, iy: i32, dx: f32, dy: f32) -> f32 {
    let t = 0.5 - dx * dx - dy * dy;
    if t <= 0.0 {
        0.0
    } else {
        let (gx, gy) = GRADIENT_DIRS[gradient(seed, ix, iy)];
        let t2 = t * t;
        t2 * t2 * (gx * dx + gy * dy)
    }
}

/// Simplex noise, roughly in `[-1, 1]`.
fn simplex(seed: u64, x: f32, y: f32) -> f32 {
    let s = (x + y) * 0.366_025_42;
    let i = (x + s).floor();
    let j = (y + s).floor();
    let (ii, jj) = (i as i32, j as i32);
    let g = 0.211_324_87;
    let t = (i + j) * g;
    let x0 = x - (i - t);
    let y0 = y - (j - t);
    let (i1, j1) = if x0 > y0 { (1, 0) } else { (0, 1) };
    let n0 = corner(seed, ii, jj, x0, y0);
    let n1 = corner(seed, ii + i1, jj + j1, x0 - i1 as f32 + g, y0 - j1 as f32 + g);
    let n2 = corner(seed, ii + 1, jj + 1, x0 - 1.0 + 2.0 * g, y0 - 1.0 + 2.0 * g);
    100.0 * (n0 + n1 + n2)
}

/// Fractal noise, roughly in `[-1, 1]`: the octaves' sum, their amplitude, and the next octave's
/// frequency and amplitude.
fn fractal(seed: u64, x: f32, y: f32, octaves: u32, lacunarity: f32, gain: f32) -> f32 {
    let step = |(sum, total, frequency, amplitude): (f32, f32, f32, f32), _: u32, seed: u64| {
        (
            sum + amplitude * simplex(seed, x * frequency, y * frequency),
            total + amplitude,
            frequency * lacunarity,
            amplitude * gain,
        )
    };
    let (sum, total, _, _) = layer_octaves(seed, octaves, (0.0, 0.0, 1.0, 1.0), &step);
    if total > 0.0 {
        sum / total
    } else {
        0.0
    }
}

/// The default fractal terrain.
fn fractal_terrain(width: usize, height: usize, seed: u64) -> Terrain {
    terrain(width, height, |x, y| {
        let u = (x as f64 + 0.5) / width as f64;
        let v = (y as f64 + 0.5) / height as f64;
        let n = fractal(seed, (u * 2.0) as f32, (v * 2.0) as f32, 5, 2.0, 0.5);
        (0.5 * n + 0.5).clamp(0.0, 1.0)
    })
}

/// The order key of a height.
fn key(v: f32) -> i32 {
    order_key((v + 0.0).to_bits())
}

/// The height of an order key.
fn height_of(k: i32) -> f32 {
    f32::from_bits(key_bits(k))
}

/// How far apart two neighbours are.
fn apart(diagonal: bool) -> f32 {
    if diagonal {
        std::f32::consts::SQRT_2
    } else {
        1.0
    }
}

/// The distance update of the upwind scheme, on the bits of the two axis minima.
fn upwind(u: u32, v: u32) -> u32 {
    let (u, v) = (f32::from_bits(u), f32::from_bits(v));
    let (m1, m2) = (u.min(v), u.max(v));
    let d = m2 - m1;
    let t = if m1.is_infinite() {
        f32::INFINITY
    } else if m2.is_infinite() || d >= 1.0 {
        m1 + 1.0
    } else {
        (m1 + m2 + (2.0 - d * d).sqrt()) / 2.0
    };
    t.to_bits()
}

/// The distance across a diagonal.
fn bridge(d: u32) -> u32 {
    (f32::from_bits(d) + std::f32::consts::SQRT_2).to_bits()
}

/// A flat cell's elevation with its micro-relief.
fn relief(level: i32, walls: Option<(u32, u32)>, toward: u32) -> i32 {
    let walls = match walls {
        Some((peak, away)) => f32::from_bits(peak) - f32::from_bits(away),
        None => 0.0,
    };
    let relief = walls + 2.0 * f32::from_bits(toward);
    if relief == 0.0 {
        return level;
    }
    let e = height_of(level);
    key(e + relief * (f32::EPSILON * e.abs().max(1.0)))
}

/// The slope of a descent.
fn slope(here: i32, there: i32, diagonal: bool) -> i32 {
    key((height_of(here) - height_of(there)) / apart(diagonal))
}

fn plus(a: u32, b: u32) -> u32 {
    (f32::from_bits(a) + f32::from_bits(b)).to_bits()
}

fn part(area: u32, total: u32, weight: u32) -> u32 {
    (f32::from_bits(area) / f32::from_bits(total) * f32::from_bits(weight)).to_bits()
}

/// The weight of a descent, sharpened by the concentration.
fn weight(here: i32, there: i32, diagonal: bool, concentration: f32) -> u32 {
    let drop = height_of(here) - height_of(there);
    if drop > 0.0 {
        (drop / apart(diagonal)).powf(concentration).to_bits()
    } else {
        0
    }
}

/// The level a bed may be filled to.
fn fill_cap(bed: i32, most: f32) -> i32 {
    key(height_of(bed) + most)
}

fn drainage_fns(
    most: f32,
    concentration: f32,
) -> DrainageFns<
    impl Fn(i32) -> i32,
    fn(u32, u32) -> u32,
    fn(u32) -> u32,
    fn(i32, Option<(u32, u32)>, u32) -> i32,
    fn(i32, i32, bool) -> i32,
    impl Fn(i32, i32, bool) -> u32,
    fn(u32, u32) -> u32,
    fn(u32, u32, u32) -> u32,
> {
    DrainageFns {
        cap: move |k: i32| fill_cap(k, most),
        upwind: upwind as fn(u32, u32) -> u32,
        bridge: bridge as fn(u32) -> u32,
        relief: relief as fn(i32, Option<(u32, u32)>, u32) -> i32,
        slope: slope as fn(i32, i32, bool) -> i32,
        weight: move |a: i32, b: i32, d: bool| weight(a, b, d, concentration),
        plus: plus as fn(u32, u32) -> u32,
        part: part as fn(u32, u32, u32) -> u32,
    }
}

/// A flow map: catchments on a logarithmic scale against the largest.
fn log_flow(area: u32, top: u32) -> f32 {
    let denom = (1.0 + f32::from_bits(top)).ln().max(1e-6);
    ((1.0 + f32::from_bits(area)).ln() / denom).clamp(0.0, 1.0)
}

fn blend(before: f32, after: f32, mask: f32) -> f32 {
    before + (after - before) * mask
}

fn lost(before: f32, after: f32) -> f32 {
    (before - after).max(0.0)
}

fn gained(before: f32, after: f32) -> f32 {
    (after - before).max(0.0)
}


fn stream(input: &Terrain, mask: Option<&Terrain>, diffusion: f32, world: &World) -> Option<Vec<Terrain>> {
    let (strength, concavity, threshold) = (0.2_f32, 0.5_f32, 0.02_f32);
    let m = world.meters_per_cell() as f32;
    let cell = (m * m).max(1e-12);
    let f = StreamFns {
        drainage: drainage_fns(0.05, 1.5),
        lowered: |(zc, zr): (i32, i32), (area, top): (u32, u32), diagonal: bool| {
            let norm = (f32::from_bits(area) / f32::from_bits(top)).clamp(0.0, 1.0);
            let f = strength * norm.powf(concavity) / apart(diagonal);
            key((height_of(zc) + f * height_of(zr)) / (1.0 + f))
        },
        talus: TalusFns {
            zero: 0.0_f32,
            excess: |a: i32, b: i32, diagonal: bool| {
                let threshold = threshold * apart(diagonal);
                let diff = height_of(a) - height_of(b);
                if diff <= threshold { None } else { Some(diff - threshold) }
            },
            tally: |(total, most): (f32, f32), e: f32| (total + e, most.max(e)),
            shed: |most: f32| diffusion * most * 0.5,
            lose: |shed: f32| -shed,
            gain: |net: f32, (shed, e, total): (f32, f32, f32)| {
                if total > 0.0 { net + shed * (e / total) } else { net }
            },
            settle: |h: i32, net: f32| key(height_of(h) + net),
        },
    };
    let finish = OutputFns {
        key,
        blend: |b: i32, a: i32, m: f32| blend(height_of(b), height_of(a), m),
        flow: |area: &Vec<u32>| log_normalize(area, largest_area(area, 0), &log_flow),
        wear: |b: i32, a: i32| lost(height_of(b), height_of(a)),
        deposition: |b: i32, a: i32| gained(height_of(b), height_of(a)),
    };
    StreamErosion::eval(
        input,
        mask,
        (0.0, 1.0),
        cell.to_bits(),
        1e-12_f32.to_bits(),
        diffusion > 0.0,
        StreamErosion::iterations(30),
        &f,
        &finish,
        &|| world.cancelled,
    )
}

fn rivers(input: &Terrain, mask: Option<&Terrain>, world: &World) -> Option<Vec<Terrain>> {
    let (depth, sharpness, smoothing) = (0.2_f32, 2.0_f32, 0.5_f32);
    let radius = (smoothing * 2.0 * input.width as f32 / 256.0).round() as usize;
    let carve = CarveFns {
        flow: log_flow,
        cut: |flow: f32| depth * flow.powf(sharpness),
        plus: |a: f32, b: f32| a + b,
        over: |sum: f32, n: usize| sum / n as f32,
        lower: |bed: i32, cut: f32| key(height_of(bed) - cut),
    };
    let finish = RiverFns {
        key,
        blend: |b: i32, a: i32, m: f32| blend(height_of(b), height_of(a), m),
        wear: |b: i32, a: i32| lost(height_of(b), height_of(a)),
    };
    Rivers::eval(
        input,
        mask,
        (0.0, 1.0),
        1.0_f32.to_bits(),
        radius,
        &drainage_fns(0.05, 1.5),
        &carve,
        &finish,
        &|| world.cancelled,
    )
}

/// A slope from high (top) to low (bottom), so flow accumulates downhill.
fn ramp_field() -> Terrain {
    terrain(32, 32, |_, y| 1.0 - y as f32 / 31.0)
}

/// The ramp with a deep single-cell pit in the middle: a closed interior sink.
fn pit_field() -> Terrain {
    terrain(32, 32, |x, y| if x == 16 && y == 16 { -0.5 } else { 1.0 - y as f32 / 31.0 })
}

fn world() -> World {
    World::new(32, 32, 0)
}

fn wide_world() -> World {
    world().with_extent(256.0)
}

#[test]
fn rivers_is_deterministic() {
    let input = ramp_field();
    let run = || bits(heights(&rivers(&input, None, &world()).unwrap()[0]));
    assert_eq!(run(), run());
}

#[test]
fn rivers_flow_accumulates_downhill() {
    let out = rivers(&ramp_field(), None, &world()).unwrap();
    let top = at(&out[1], 16, 1);
    let bottom = at(&out[1], 16, 30);
    assert!(bottom > top, "flow should accumulate downhill: top {top}, bottom {bottom}");
}

#[test]
fn it_carves_and_never_raises() {
    let input = fractal_terrain(64, 64, 7);
    let out = rivers(&input, None, &World::new(64, 64, 7)).unwrap();
    assert_ne!(bits(heights(&input)), bits(heights(&out[0])), "rivers must incise the terrain");
    for y in 0..64 {
        for x in 0..64 {
            assert!(
                at(&out[0], x, y) <= at(&input, x, y) + 1e-6,
                "the carve must never raise the bed at ({x},{y})"
            );
        }
    }
    assert!(sum(&out[2]) > 0.0, "wear should record the material cut away");
}

#[test]
fn a_closed_basin_is_not_carved() {
    let input = pit_field();
    let out = rivers(&input, None, &world()).unwrap();
    assert_eq!(at(&out[0], 16, 16), -0.5, "the closed-basin floor must not be carved");
    assert_ne!(
        bits(heights(&input)),
        bits(heights(&out[0])),
        "the boundary-draining ramp must still incise"
    );
}

#[test]
fn rivers_a_zero_mask_protects_the_terrain() {
    let input = ramp_field();
    let protect = terrain(32, 32, |_, _| 0.0);
    let out = rivers(&input, Some(&protect), &world()).unwrap();
    assert_eq!(
        bits(heights(&input)),
        bits(heights(&out[0])),
        "a zero mask must disable the carve"
    );
}

#[test]
fn a_cancelled_carve_gives_nothing() {
    assert!(rivers(&ramp_field(), None, &world().cancelled()).is_none());
}

#[test]
fn stream_is_deterministic() {
    let input = ramp_field();
    let run = || bits(heights(&stream(&input, None, 0.5, &wide_world()).unwrap()[0]));
    assert_eq!(run(), run());
}

#[test]
fn stream_flow_accumulates_downhill() {
    let out = stream(&ramp_field(), None, 0.5, &wide_world()).unwrap();
    let top = at(&out[1], 16, 1);
    let bottom = at(&out[1], 16, 30);
    assert!(bottom > top, "flow should accumulate downhill: top {top}, bottom {bottom}");
}

#[test]
fn it_erodes_and_deposits() {
    let input = fractal_terrain(64, 64, 7);
    let c = World::new(64, 64, 7).with_extent(512.0);
    let out = stream(&input, None, 0.5, &c).unwrap();
    assert!(sum(&out[2]) > 0.0, "wear (output 2) should be non-zero");
    assert!(sum(&out[3]) > 0.0, "deposition (output 3) should be non-zero: the diffusion fills");
}

#[test]
fn a_closed_basin_is_not_incised() {
    let input = pit_field();
    // Without diffusion only the incision moves the bed.
    let out = stream(&input, None, 0.0, &wide_world()).unwrap();
    assert_eq!(at(&out[0], 16, 16), -0.5, "the closed-basin floor must not be incised");
    assert_ne!(
        bits(heights(&input)),
        bits(heights(&out[0])),
        "the boundary-draining ramp must still erode"
    );
}

#[test]
fn carves_an_fbm_terrain() {
    let input = fractal_terrain(64, 64, 7);
    let c = World::new(64, 64, 7).with_extent(512.0);
    let out = stream(&input, None, 0.5, &c).unwrap();
    assert_ne!(
        bits(heights(&input)),
        bits(heights(&out[0])),
        "stream erosion must change the terrain"
    );
}

#[test]
fn stream_a_zero_mask_protects_the_terrain() {
    let input = ramp_field();
    let protect = terrain(32, 32, |_, _| 0.0);
    let out = stream(&input, Some(&protect), 0.5, &wide_world()).unwrap();
    assert_eq!(
        bits(heights(&input)),
        bits(heights(&out[0])),
        "a zero mask must disable erosion"
    );
}

#[test]
fn pure_incision_only_lowers() {
    let input = fractal_terrain(48, 48, 3);
    let out = stream(&input, None, 0.0, &World::new(48, 48, 3).with_extent(512.0)).unwrap();
    assert!(heights(&out[0]).iter().zip(heights(&input)).all(|(a, b)| a <= b));
    assert_eq!(sum(&out[3]), 0.0);
}

#[test]
fn a_cancelled_evolution_gives_nothing() {
    assert!(stream(&ramp_field(), None, 0.5, &wide_world().cancelled()).is_none());
}

#[test]
fn stream_iterations_are_bounded() {
    assert_eq!(StreamErosion::iterations(-1), 0);
    assert_eq!(StreamErosion::iterations(30), 30);
    assert_eq!(StreamErosion::iterations(1_000_000), 100_000);
}

#[test]
fn a_box_blur_averages_the_window() {
    let grid = Grid { width: 3, height: 1 };
    let src = vec![0.0_f32, 3.0, 6.0];
    let blur = |r: usize, p: usize| {
        box_blur(&src, &grid, r, p, 0.0, &|a: f32, b: f32| a + b, &|s: f32, n: usize| s / n as f32)
    };
    assert_eq!(blur(1, 1), [1.5, 3.0, 4.5]);
    assert_eq!(blur(1, 2), [2.25, 3.0, 3.75]);
    assert_eq!(blur(0, 2), src);
}
