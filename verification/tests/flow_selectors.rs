#![allow(dead_code)]
use ymir_nodes::field::{Field, Layer, HEIGHT};
use ymir_nodes::field::MASK;
use ymir_nodes::flow_selector::AreaFns;
use ymir_nodes::hydrology::normalize::log_normalize_span;
use ymir_nodes::keys::{key_bits, order_key};
use ymir_nodes::nodes::flow_droplet::WalkFns;
use ymir_nodes::nodes::flow_select::FlatFns;
use ymir_nodes::water_sim::WaterFns;
use ymir_nodes::{FlowDroplet, FlowHarmonic, FlowSelect, FlowWater};

/// The part of the world a field covers.
#[derive(Clone, Copy, Debug, PartialEq)]
struct Region {
    min_x: f64,
    min_y: f64,
    max_x: f64,
    max_y: f64,
}

const UNIT: Region = Region { min_x: 0.0, min_y: 0.0, max_x: 1.0, max_y: 1.0 };

impl Region {
    fn width(&self) -> f64 {
        self.max_x - self.min_x
    }

    fn height(&self) -> f64 {
        self.max_y - self.min_y
    }
}

type Terrain = Field<f32, Region>;

fn terrain(width: usize, height: usize, cell: impl Fn(usize, usize) -> f32) -> Terrain {
    let mut field = Field::new(width, height, UNIT);
    field.set_layer(HEIGHT, Layer::from_fn(width, height, &cell));
    field
}

fn with_layer(mut field: Terrain, name: &str, layer: Layer<f32>) -> Terrain {
    field.set_layer(name, layer);
    field
}

fn layer<'a>(field: &'a Terrain, name: &str) -> &'a Layer<f32> {
    field.layer(name).expect("the layer is there")
}

fn heights(field: &Terrain) -> &[f32] {
    &layer(field, HEIGHT).cells
}

/// The exact bits of a layer, for comparing results byte by byte.
fn bits(values: &[f32]) -> Vec<u32> {
    values.iter().map(|v| v.to_bits()).collect()
}

fn at(field: &Terrain, x: usize, y: usize) -> f32 {
    layer(field, HEIGHT).get(x, y).expect("the cell is on the field")
}

fn sum(field: &Terrain) -> f64 {
    heights(field).iter().map(|&v| f64::from(v)).sum()
}

/// What the world is, as far as the nodes read it.
#[derive(Clone, Copy)]
struct World {
    width: usize,
    height: usize,
    seed: u64,
    extent: f64,
    tall: f64,
    cancelled: bool,
}

impl World {
    fn new(width: usize, height: usize, seed: u64) -> Self {
        World { width, height, seed, extent: 1.0, tall: 1.0, cancelled: false }
    }

    fn with_extent(self, extent: f64) -> Self {
        World { extent, ..self }
    }

    fn with_height(self, tall: f64) -> Self {
        World { tall, ..self }
    }

    fn cancelled(self) -> Self {
        World { cancelled: true, ..self }
    }

    fn meters_per_cell(&self) -> f64 {
        self.extent / self.width as f64
    }

    fn world_to_cells(&self, meters: f64) -> f64 {
        meters / self.meters_per_cell()
    }

    fn slope_scale(&self) -> f64 {
        self.tall / self.meters_per_cell()
    }
}

fn smoothstep(low: f32, high: f32, x: f32) -> f32 {
    let t = if (high - low).abs() < 1e-9 {
        if x >= high { 1.0 } else { 0.0 }
    } else {
        ((x - low) / (high - low)).clamp(0.0, 1.0)
    };
    t * t * (3.0 - 2.0 * t)
}

/// How far `x` is inside the band from `min` to `max`.
fn band(min: f32, max: f32, falloff: f32, x: f32) -> f32 {
    if min > max {
        return 0.0;
    }
    let lower = smoothstep(min - falloff, min, x);
    let upper = if x <= max { 1.0 } else { 1.0 - smoothstep(max, max + falloff, x) };
    (lower * upper).clamp(0.0, 1.0)
}

fn flat(width: usize, height: usize, value: f32) -> Terrain {
    terrain(width, height, |_, _| value)
}

/// A ramp along the rows from `lo` to `hi`.
fn slanted(size: usize, lo: f32, hi: f32) -> Terrain {
    terrain(size, size, |x, _| lo + (hi - lo) * x as f32 / (size - 1) as f32)
}

fn with_flow(field: Terrain, value: f32) -> Terrain {
    let (width, height) = (field.width, field.height);
    with_layer(field, "flow", Layer::filled(width, height, value))
}

fn flow_of(field: &Terrain) -> f32 {
    layer(field, "flow").get(0, 0).unwrap()
}

fn in_unit_range(field: &Terrain) -> bool {
    heights(field).iter().all(|v| (0.0..=1.0).contains(v))
}

/// The lowest and highest value.
fn value_range(values: &Vec<f32>) -> (f32, f32) {
    let lo = values.iter().copied().fold(f32::INFINITY, f32::min);
    let hi = values.iter().copied().fold(f32::NEG_INFINITY, f32::max);
    if values.is_empty() { (0.0, 0.0) } else { (lo, hi) }
}

/// The order key of a height.
fn key(v: f32) -> i32 {
    order_key((v + 0.0).to_bits())
}

/// The height of an order key.
fn height_of(k: i32) -> f32 {
    f32::from_bits(key_bits(k))
}

/// How far apart two neighbours are.
fn apart(diagonal: bool) -> f32 {
    if diagonal {
        std::f32::consts::SQRT_2
    } else {
        1.0
    }
}

/// The distance update of the upwind scheme, on the bits of the two axis minima.
fn upwind(u: u32, v: u32) -> u32 {
    let (u, v) = (f32::from_bits(u), f32::from_bits(v));
    let (m1, m2) = (u.min(v), u.max(v));
    let d = m2 - m1;
    let t = if m1.is_infinite() {
        f32::INFINITY
    } else if m2.is_infinite() || d >= 1.0 {
        m1 + 1.0
    } else {
        (m1 + m2 + (2.0 - d * d).sqrt()) / 2.0
    };
    t.to_bits()
}

/// The distance across a diagonal.
fn bridge(d: u32) -> u32 {
    (f32::from_bits(d) + std::f32::consts::SQRT_2).to_bits()
}

/// A flat cell's elevation with its micro-relief.
fn relief(level: i32, walls: Option<(u32, u32)>, toward: u32) -> i32 {
    let walls = match walls {
        Some((peak, away)) => f32::from_bits(peak) - f32::from_bits(away),
        None => 0.0,
    };
    let relief = walls + 2.0 * f32::from_bits(toward);
    if relief == 0.0 {
        return level;
    }
    let e = height_of(level);
    key(e + relief * (f32::EPSILON * e.abs().max(1.0)))
}

/// The slope of a descent.
fn slope(here: i32, there: i32, diagonal: bool) -> i32 {
    key((height_of(here) - height_of(there)) / apart(diagonal))
}

fn plus(a: u32, b: u32) -> u32 {
    (f32::from_bits(a) + f32::from_bits(b)).to_bits()
}

fn part(area: u32, total: u32, weight: u32) -> u32 {
    (f32::from_bits(area) / f32::from_bits(total) * f32::from_bits(weight)).to_bits()
}

/// The weight of a descent, sharpened by the concentration.
fn weight(here: i32, there: i32, diagonal: bool, concentration: f32) -> u32 {
    let drop = height_of(here) - height_of(there);
    if drop > 0.0 {
        (drop / apart(diagonal)).powf(concentration).to_bits()
    } else {
        0
    }
}

/// The level a bed may be filled to.
fn fill_cap(bed: i32, most: f32) -> i32 {
    key(height_of(bed) + most)
}

type Four = (f32, f32, f32, f32);

const DT: f32 = 0.02;
const GRAVITY: f32 = 9.81;

fn water_fns(
    rain: f32,
    evaporation: f32,
) -> WaterFns<
    f32,
    impl Fn(f32) -> f32,
    fn(f32, f32) -> f32,
    fn(f32, f32) -> f32,
    fn(f32, f32, f32) -> f32,
    fn(Four, f32) -> Four,
    impl Fn(f32, Four, Four) -> f32,
    fn(f32, f32) -> f32,
> {
    fn add2(a: f32, b: f32) -> f32 {
        a + b
    }
    fn mirror(here: f32, back: f32) -> f32 {
        2.0 * here - back
    }
    fn pipe(last: f32, here: f32, there: f32) -> f32 {
        (last + DT * GRAVITY * (here - there)).max(0.0)
    }
    fn limit(f: Four, depth: f32) -> Four {
        let sum = f.0 + f.1 + f.2 + f.3;
        if sum > 0.0 {
            let k = (depth / (sum * DT)).min(1.0);
            (f.0 * k, f.1 * k, f.2 * k, f.3 * k)
        } else {
            f
        }
    }
    WaterFns {
        zero: 0.0,
        rain: move |d: f32| d + rain,
        level: add2 as fn(f32, f32) -> f32,
        mirror: mirror as fn(f32, f32) -> f32,
        pipe: pipe as fn(f32, f32, f32) -> f32,
        limit: limit as fn(Four, f32) -> Four,
        settle: move |depth: f32, i: Four, o: Four| {
            let inflow = i.0 + i.1 + i.2 + i.3;
            let outflow = o.0 + o.1 + o.2 + o.3;
            ((depth + DT * (inflow - outflow)) * (1.0 - evaporation)).max(0.0)
        },
        tally: add2 as fn(f32, f32) -> f32,
    }
}

/// The band of a flow map that the nodes select by default.
const BAND: (f32, f32, f32) = (0.3, 1.0, 0.15);

/// Values stretched over their own range on a logarithmic scale.
fn stretch(value: f32, lo: f32, hi: f32) -> f32 {
    let floor = (1.0 + lo.max(0.0)).ln();
    let span = ((1.0 + hi).ln() - floor).max(1e-6);
    (((1.0 + value).ln() - floor) / span).clamp(0.0, 1.0)
}

fn stretch_areas(areas: &Vec<u32>) -> Vec<f32> {
    log_normalize_span(areas, &|a: u32, (lo, hi): (u32, u32)| {
        stretch(f32::from_bits(a), f32::from_bits(lo), f32::from_bits(hi))
    })
}

fn stretch_values(values: &Vec<f32>) -> Vec<f32> {
    let bits: Vec<u32> = values.iter().map(|v| v.max(0.0).to_bits()).collect();
    stretch_areas(&bits)
}

fn area_fns() -> AreaFns<impl Fn(i32, i32, bool) -> u32, fn(u32, u32) -> u32, fn(u32, u32, u32) -> u32> {
    AreaFns {
        weight: |a: i32, b: i32, d: bool| weight(a, b, d, 1.5),
        plus: plus as fn(u32, u32) -> u32,
        part: part as fn(u32, u32, u32) -> u32,
    }
}

fn cell_area(input: &Terrain) -> u32 {
    let m = World::new(input.width, input.height, 0).with_extent(256.0).meters_per_cell() as f32;
    (m * m).max(1e-12).to_bits()
}

fn flow_select(input: &Terrain, (min, max, falloff): (f32, f32, f32)) -> Terrain {
    let flats = FlatFns { upwind, bridge, relief };
    FlowSelect::eval(
        input,
        0.0,
        &key,
        cell_area(input),
        &flats,
        &area_fns(),
        &stretch_areas,
        &|v: f32| band(min, max, falloff, v),
    )
}

/// A stand-in for a harmonic resolver that leaves flats level.
fn level(filled: &Vec<i32>) -> Vec<i32> {
    filled.clone()
}

fn flow_harmonic(input: &Terrain) -> Terrain {
    FlowHarmonic::eval(
        input,
        0.0,
        &key,
        &|k: i32| fill_cap(k, 0.05),
        &level,
        cell_area(input),
        &area_fns(),
        &stretch_areas,
        &|v: f32| band(BAND.0, BAND.1, BAND.2, v),
    )
}

fn flow_water(input: &Terrain, min: f32, world: &World) -> Option<Terrain> {
    FlowWater::eval(
        input,
        FlowWater::steps(200) as usize,
        &water_fns(0.01, 0.02),
        &stretch_values,
        &|v: f32| band(min, BAND.1, BAND.2, v),
        &|| world.cancelled,
    )
}

#[derive(Clone, Copy)]
struct Walker {
    x: f32,
    y: f32,
    dx: f32,
    dy: f32,
}

fn flow_droplet(input: &Terrain, rain: f64) -> Terrain {
    let inertia = 0.3_f32;
    let (w, h) = (input.width as f32, input.height as f32);
    let f = WalkFns {
        node: |d: Walker| (d.x.floor() as usize, d.y.floor() as usize),
        advance: |d: Walker, (cx, cy): (usize, usize), (nw, ne, sw, se): (f32, f32, f32, f32)| {
            let (fx, fy) = (d.x - cx as f32, d.y - cy as f32);
            let gx = (ne - nw) * (1.0 - fy) + (se - sw) * fy;
            let gy = (sw - nw) * (1.0 - fx) + (se - ne) * fx;
            let dx = d.dx * inertia - gx * (1.0 - inertia);
            let dy = d.dy * inertia - gy * (1.0 - inertia);
            let len = (dx * dx + dy * dy).sqrt();
            if len < 1e-6 {
                return None;
            }
            let (dx, dy) = (dx / len, dy / len);
            let (x, y) = (d.x + dx, d.y + dy);
            if x < 1.0 || y < 1.0 || x > w - 2.0 || y > h - 2.0 {
                None
            } else {
                Some(Walker { x, y, dx, dy })
            }
        },
        weights: |d: Walker, (cx, cy): (usize, usize)| {
            let (fx, fy) = (d.x - cx as f32, d.y - cy as f32);
            ((1.0 - fx) * (1.0 - fy), fx * (1.0 - fy), (1.0 - fx) * fy, fx * fy)
        },
        plus: |a: f32, b: f32| a + b,
    };
    let unit = |u: u32| u as f32 / (1u32 << 24) as f32;
    let start = |u: u32, v: u32| Walker {
        x: 1.0 + unit(u) * (w - 3.0).max(0.0),
        y: 1.0 + unit(v) * (h - 3.0).max(0.0),
        dx: 0.0,
        dy: 0.0,
    };
    let droplets = (rain * (input.width * input.height) as f64).round() as usize;
    FlowDroplet::eval(
        input,
        0.0,
        &f,
        &start,
        &stretch_values,
        &|v: f32| band(BAND.0, BAND.1, BAND.2, v),
        7,
        droplets,
    )
}

/// A ramp high at the top and low at the bottom, so flow accumulates downhill.
fn ramp(size: usize) -> Terrain {
    terrain(size, size, |_, y| 1.0 - y as f32 / (size - 1) as f32)
}

/// A ramp low at the top, so droplets collect there.
fn rising(size: usize) -> Terrain {
    terrain(size, size, |_, y| y as f32 / (size - 1) as f32)
}

fn with_debris(field: Terrain) -> Terrain {
    let (width, height) = (field.width, field.height);
    with_layer(field, "debris", Layer::filled(width, height, 0.7))
}

fn debris_of(field: &Terrain) -> f32 {
    layer(field, "debris").get(0, 0).unwrap()
}

#[test]
fn flow_select_high_flow_channels_are_selected_and_ridges_are_not() {
    let out = flow_select(&ramp(32), BAND);
    assert!(at(&out, 16, 30) > 0.5, "high-flow channel should select");
    assert!(at(&out, 16, 0) < 0.1, "the no-upstream ridge top should not select");
}

#[test]
fn flow_select_the_selection_rides_on_height_not_a_mask_layer() {
    assert!(flow_select(&ramp(32), (0.3, 1.0, 0.15)).layer(MASK).is_none());
}

#[test]
fn flow_select_passes_through_other_layers() {
    assert_eq!(debris_of(&flow_select(&with_debris(ramp(32)), (0.3, 1.0, 0.15))), 0.7);
}

#[test]
fn flow_select_stays_in_unit_range() {
    assert!(in_unit_range(&flow_select(&ramp(32), (0.3, 1.0, 0.15))));
}

#[test]
fn flow_select_is_deterministic() {
    let input = ramp(32);
    let run = || bits(heights(&flow_select(&input, (0.3, 1.0, 0.15))));
    assert_eq!(run(), run());
}

#[test]
fn flow_harmonic_high_flow_channels_are_selected_and_ridges_are_not() {
    let out = flow_harmonic(&ramp(32));
    assert!(at(&out, 16, 30) > 0.5, "high-flow channel should select");
    assert!(at(&out, 16, 0) < 0.1, "the no-upstream ridge top should not select");
}

#[test]
fn flow_harmonic_stays_in_unit_range() {
    assert!(in_unit_range(&flow_harmonic(&ramp(32))));
}

#[test]
fn flow_harmonic_the_selection_rides_on_height_not_a_mask_layer() {
    assert!(flow_harmonic(&ramp(32)).layer(MASK).is_none());
}

#[test]
fn flow_harmonic_passes_through_other_layers() {
    assert_eq!(debris_of(&flow_harmonic(&with_debris(ramp(32)))), 0.7);
}

#[test]
fn flow_harmonic_is_deterministic() {
    let input = ramp(32);
    assert_eq!(bits(heights(&flow_harmonic(&input))), bits(heights(&flow_harmonic(&input))));
}

#[test]
fn differs_from_the_distance_flow_selector() {
    let size = 24;
    let field = terrain(size, size, |x, y| {
        let pit = (8..16).contains(&x) && (8..16).contains(&y);
        let outlet = x == size / 2 && y == size - 1;
        if pit || outlet { 0.0 } else { 0.6 }
    });
    let harmonic = flow_harmonic(&field);
    let distance = flow_select(&field, BAND);
    assert_ne!(
        bits(heights(&harmonic)),
        bits(heights(&distance)),
        "the harmonic selector should resolve flats differently from the distance one"
    );
}

#[test]
fn the_wettest_low_ground_is_selected_over_the_dry_corners() {
    let size = 32;
    let basin = terrain(size, size, |x, y| {
        let inside = |v: usize| (size * 3 / 8..size * 5 / 8).contains(&v);
        if inside(x) && inside(y) { 0.0 } else { 0.5 }
    });
    let out = flow_water(&basin, 0.9, &World::new(size, size, 0)).unwrap();
    let mid = size / 2;
    assert!(at(&out, mid, mid) > 0.5, "the pooled pit should select");
    assert!(at(&out, 1, 1) < 0.2, "a well-drained dry corner should not select");
}

#[test]
fn flow_water_the_selection_rides_on_height_not_a_mask_layer() {
    let out = flow_water(&ramp(32), BAND.0, &World::new(32, 32, 0)).unwrap();
    assert!(out.layer(MASK).is_none());
}

#[test]
fn flow_water_passes_through_other_layers() {
    let out = flow_water(&with_debris(ramp(32)), BAND.0, &World::new(32, 32, 0)).unwrap();
    assert_eq!(debris_of(&out), 0.7);
}

#[test]
fn flow_water_stays_in_unit_range() {
    assert!(in_unit_range(&flow_water(&ramp(32), BAND.0, &World::new(32, 32, 0)).unwrap()));
}

#[test]
fn flow_water_is_deterministic() {
    let input = ramp(24);
    let run = || bits(heights(&flow_water(&input, BAND.0, &World::new(24, 24, 0)).unwrap()));
    assert_eq!(run(), run());
}

#[test]
fn flow_water_cancellation_is_reported() {
    assert!(flow_water(&ramp(16), BAND.0, &World::new(16, 16, 0).cancelled()).is_none());
}

#[test]
fn water_steps_are_not_negative() {
    assert_eq!((FlowWater::steps(-4), FlowWater::steps(200)), (0, 200));
}

#[test]
fn flow_droplet_is_deterministic() {
    let input = rising(48);
    assert_eq!(bits(heights(&flow_droplet(&input, 1.0))), bits(heights(&flow_droplet(&input, 1.0))));
}

#[test]
fn flow_droplet_stays_in_unit_range() {
    assert!(in_unit_range(&flow_droplet(&rising(48), 1.0)));
}

#[test]
fn flow_droplet_the_selection_rides_on_height_not_a_mask_layer() {
    assert!(flow_droplet(&rising(48), 1.0).layer(MASK).is_none());
}

#[test]
fn flow_droplet_passes_through_other_layers() {
    assert_eq!(debris_of(&flow_droplet(&with_debris(rising(48)), 1.0)), 0.7);
}

#[test]
fn more_flow_collects_downhill_than_on_the_ridge() {
    let size = 64;
    let out = flow_droplet(&rising(size), 4.0);
    let row_mean = |y: usize| -> f32 { (0..size).map(|x| at(&out, x, y)).sum::<f32>() / size as f32 };
    assert!(
        row_mean(3) > row_mean(size - 4),
        "the draining low edge should select more than the high ridge"
    );
}
