#![allow(dead_code)]
use ymir_nodes::field::{Field, Layer, HEIGHT};
use ymir_nodes::field::MASK;
use ymir_nodes::shaping::Span;
use ymir_nodes::{Mask, Radial, Slope};
use ymir_nodes::noise::{gradient, layer_octaves};
use ymir_nodes::grid::Grid;
use ymir_nodes::nodes::thermal::TapFns;
use ymir_nodes::talus::{relax_pass, TalusFns};
use ymir_nodes::ThermalErosion;
use ymir_nodes::thermal_gpu::{schedule, Dispatch, HeightGrid, Phase, Uniform};

/// The part of the world a field covers.
#[derive(Clone, Copy, Debug, PartialEq)]
struct Region {
    min_x: f64,
    min_y: f64,
    max_x: f64,
    max_y: f64,
}

const UNIT: Region = Region { min_x: 0.0, min_y: 0.0, max_x: 1.0, max_y: 1.0 };

impl Region {
    fn width(&self) -> f64 {
        self.max_x - self.min_x
    }

    fn height(&self) -> f64 {
        self.max_y - self.min_y
    }
}

type Terrain = Field<f32, Region>;

fn terrain(width: usize, height: usize, cell: impl Fn(usize, usize) -> f32) -> Terrain {
    let mut field = Field::new(width, height, UNIT);
    field.set_layer(HEIGHT, Layer::from_fn(width, height, &cell));
    field
}

fn with_layer(mut field: Terrain, name: &str, layer: Layer<f32>) -> Terrain {
    field.set_layer(name, layer);
    field
}

fn layer<'a>(field: &'a Terrain, name: &str) -> &'a Layer<f32> {
    field.layer(name).expect("the layer is there")
}

fn heights(field: &Terrain) -> &[f32] {
    &layer(field, HEIGHT).cells
}

/// The exact bits of a layer, for comparing results byte by byte.
fn bits(values: &[f32]) -> Vec<u32> {
    values.iter().map(|v| v.to_bits()).collect()
}

fn at(field: &Terrain, x: usize, y: usize) -> f32 {
    layer(field, HEIGHT).get(x, y).expect("the cell is on the field")
}

fn sum(field: &Terrain) -> f64 {
    heights(field).iter().map(|&v| f64::from(v)).sum()
}

/// What the world is, as far as the nodes read it.
#[derive(Clone, Copy)]
struct World {
    width: usize,
    height: usize,
    seed: u64,
    extent: f64,
    tall: f64,
    cancelled: bool,
}

impl World {
    fn new(width: usize, height: usize, seed: u64) -> Self {
        World { width, height, seed, extent: 1.0, tall: 1.0, cancelled: false }
    }

    fn with_extent(self, extent: f64) -> Self {
        World { extent, ..self }
    }

    fn with_height(self, tall: f64) -> Self {
        World { tall, ..self }
    }

    fn cancelled(self) -> Self {
        World { cancelled: true, ..self }
    }

    fn meters_per_cell(&self) -> f64 {
        self.extent / self.width as f64
    }

    fn world_to_cells(&self, meters: f64) -> f64 {
        meters / self.meters_per_cell()
    }

    fn slope_scale(&self) -> f64 {
        self.tall / self.meters_per_cell()
    }
}

/// The twelve unit gradient directions, every 30 degrees.
const GRADIENT_DIRS: [(f32, f32); 12] = [
    (1.0, 0.0),
    (0.866_025_4, 0.5),
    (0.5, 0.866_025_4),
    (0.0, 1.0),
    (-0.5, 0.866_025_4),
    (-0.866_025_4, 0.5),
    (-1.0, 0.0),
    (-0.866_025_4, -0.5),
    (-0.5, -0.866_025_4),
    (0.0, -1.0),
    (0.5, -0.866_025_4),
    (0.866_025_4, -0.5),
];

fn corner(seed: u64, ix: i32, iy: i32, dx: f32, dy: f32) -> f32 {
    let t = 0.5 - dx * dx - dy * dy;
    if t <= 0.0 {
        0.0
    } else {
        let (gx, gy) = GRADIENT_DIRS[gradient(seed, ix, iy)];
        let t2 = t * t;
        t2 * t2 * (gx * dx + gy * dy)
    }
}

/// Simplex noise, roughly in `[-1, 1]`.
fn simplex(seed: u64, x: f32, y: f32) -> f32 {
    let s = (x + y) * 0.366_025_42;
    let i = (x + s).floor();
    let j = (y + s).floor();
    let (ii, jj) = (i as i32, j as i32);
    let g = 0.211_324_87;
    let t = (i + j) * g;
    let x0 = x - (i - t);
    let y0 = y - (j - t);
    let (i1, j1) = if x0 > y0 { (1, 0) } else { (0, 1) };
    let n0 = corner(seed, ii, jj, x0, y0);
    let n1 = corner(seed, ii + i1, jj + j1, x0 - i1 as f32 + g, y0 - j1 as f32 + g);
    let n2 = corner(seed, ii + 1, jj + 1, x0 - 1.0 + 2.0 * g, y0 - 1.0 + 2.0 * g);
    100.0 * (n0 + n1 + n2)
}

/// Fractal noise, roughly in `[-1, 1]`: the octaves' sum, their amplitude, and the next octave's
/// frequency and amplitude.
fn fractal(seed: u64, x: f32, y: f32, octaves: u32, lacunarity: f32, gain: f32) -> f32 {
    let step = |(sum, total, frequency, amplitude): (f32, f32, f32, f32), _: u32, seed: u64| {
        (
            sum + amplitude * simplex(seed, x * frequency, y * frequency),
            total + amplitude,
            frequency * lacunarity,
            amplitude * gain,
        )
    };
    let (sum, total, _, _) = layer_octaves(seed, octaves, (0.0, 0.0, 1.0, 1.0), &step);
    if total > 0.0 {
        sum / total
    } else {
        0.0
    }
}

/// The default fractal terrain.
fn fractal_terrain(width: usize, height: usize, seed: u64) -> Terrain {
    terrain(width, height, |x, y| {
        let u = (x as f64 + 0.5) / width as f64;
        let v = (y as f64 + 0.5) / height as f64;
        let n = fractal(seed, (u * 2.0) as f32, (v * 2.0) as f32, 5, 2.0, 0.5);
        (0.5 * n + 0.5).clamp(0.0, 1.0)
    })
}

fn blend(before: f32, after: f32, mask: f32) -> f32 {
    before + (after - before) * mask
}

fn lost(before: f32, after: f32) -> f32 {
    (before - after).max(0.0)
}

fn gained(before: f32, after: f32) -> f32 {
    (after - before).max(0.0)
}

#[derive(Clone, Copy)]
struct Thermal {
    talus: f32,
    strength: f32,
    iterations: i64,
}

const THERMAL: Thermal = Thermal { talus: 35.0, strength: 0.5, iterations: 35 };

fn thermal(input: &Terrain, mask: Option<&Terrain>, p: Thermal, world: &World) -> Option<Vec<Terrain>> {
    let threshold = p.talus.to_radians().tan() / world.slope_scale() as f32;
    let base = ThermalErosion::base_passes(p.iterations);
    let scaled = (base as f64 * input.width as f64 / 256.0).round() as i64;
    let f = TalusFns {
        zero: 0.0_f32,
        excess: |a: f32, b: f32, diagonal: bool| {
            let threshold = threshold * if diagonal { std::f32::consts::SQRT_2 } else { 1.0 };
            let diff = a - b;
            if diff <= threshold { None } else { Some(diff - threshold) }
        },
        tally: |(total, most): (f32, f32), e: f32| (total + e, most.max(e)),
        shed: |most: f32| p.strength * most * 0.5,
        lose: |shed: f32| -shed,
        gain: |net: f32, (shed, e, total): (f32, f32, f32)| {
            if total > 0.0 { net + shed * (e / total) } else { net }
        },
        settle: |h: f32, net: f32| h + net,
    };
    let taps = TapFns { blend, wear: lost, debris: gained };
    let passes = ThermalErosion::passes(base, scaled);
    ThermalErosion::eval(input, mask, (0.0, 1.0), passes, &f, &taps, &|| world.cancelled)
}

fn smoothstep(low: f32, high: f32, x: f32) -> f32 {
    let d = high - low;
    let t = if d.abs() < 1e-9 {
        if x >= high { 1.0 } else { 0.0 }
    } else {
        ((x - low) / d).clamp(0.0, 1.0)
    };
    t * t * (3.0 - 2.0 * t)
}

fn mask(input: &Terrain, mode: &str, low: f32, high: f32) -> Terrain {
    let region = input.region;
    let wx = (input.width as f64 / region.width()) as f32;
    let wy = (input.height as f64 / region.height()) as f32;
    let steepness = |dx: Span<f32>, dy: Span<f32>| {
        let gx = (dx.after - dx.before) * wx / dx.cells as f32;
        let gy = (dy.after - dy.before) * wy / dy.cells as f32;
        let slope = (gx * gx + gy * gy).sqrt();
        slope / (1.0 + slope)
    };
    Mask::eval(input, 0.0, Some(mode), &steepness, &|v: f32| smoothstep(low, high, v))
}

fn world() -> World {
    World::new(32, 32, 0)
}

/// A field with a single tall spike in the middle of a flat plain.
fn spike_field(masked_out: bool) -> Terrain {
    let field = terrain(32, 32, |x, y| if x == 16 && y == 16 { 1.0 } else { 0.0 });
    if masked_out {
        with_layer(field, MASK, Layer::filled(32, 32, 0.0))
    } else {
        field
    }
}

fn erode(input: &Terrain) -> Vec<Terrain> {
    thermal(input, None, THERMAL, &world()).unwrap()
}

#[test]
fn conserves_total_height() {
    let input = spike_field(false);
    let before = sum(&input);
    let out = erode(&input);
    let after = sum(&out[0]);
    // Material moves but is neither created nor destroyed (boundary holds it).
    assert!((before - after).abs() < 1e-4, "mass changed: {before} -> {after}");
}

#[test]
fn debris_output_records_accumulated_talus() {
    let out = erode(&spike_field(false));
    assert!(at(&out[2], 17, 16) > 0.0, "talus should accumulate beside the spike");
    assert_eq!(at(&out[2], 16, 16), 0.0, "the shedding peak holds no debris");
}

#[test]
fn wear_output_records_stripped_material() {
    let out = erode(&spike_field(false));
    assert!(at(&out[1], 16, 16) > 0.0, "the shedding peak should record wear");
    assert_eq!(at(&out[1], 17, 16), 0.0, "a cell that only gained talus records no wear");
}

#[test]
fn wear_and_debris_conserve_mass() {
    let input = fractal_terrain(64, 64, 7);
    let out = thermal(&input, None, THERMAL, &World::new(64, 64, 7)).unwrap();
    let (total_wear, total_debris) = (sum(&out[1]), sum(&out[2]));
    assert!(total_debris > 0.0, "erosion should deposit some talus");
    assert!(
        (total_wear - total_debris).abs() / total_debris < 1e-3,
        "wear ({total_wear}) and debris ({total_debris}) should balance",
    );
}

#[test]
fn erosion_is_deterministic() {
    let input = fractal_terrain(64, 64, 42);
    let run = || bits(heights(&thermal(&input, None, THERMAL, &World::new(64, 64, 42)).unwrap()[0]));
    assert_eq!(run(), run());
}

#[test]
fn erosion_spreads_the_spike() {
    let out = erode(&spike_field(false));
    let peak = at(&out[0], 16, 16);
    assert!(peak < 1.0, "peak should erode, got {peak}");
    let neighbour = at(&out[0], 17, 16);
    assert!(neighbour > 0.0, "neighbour should receive sediment, got {neighbour}");
}

#[test]
fn erosion_is_resolution_consistent() {
    let mean_change = |res: usize| -> f64 {
        let field = fractal_terrain(res, res, 42);
        let out = thermal(&field, None, THERMAL, &World::new(res, res, 42)).unwrap();
        heights(&field)
            .iter()
            .zip(heights(&out[0]))
            .map(|(a, b)| f64::from((a - b).abs()))
            .sum::<f64>()
            / (res * res) as f64
    };
    let lo = mean_change(128);
    let hi = mean_change(512);
    assert!(lo > 1e-4, "erosion not visible at 128: {lo}");
    assert!(hi > 1e-4, "erosion not visible at 512: {hi}");
    assert!(
        (lo / hi) < 3.0 && (hi / lo) < 3.0,
        "erosion drifted with resolution: {lo} vs {hi}"
    );
}

#[test]
fn fully_masked_field_is_unchanged() {
    let input = spike_field(true);
    let out = erode(&input);
    assert_eq!(
        bits(heights(&input)),
        bits(heights(&out[0])),
        "mask=0 everywhere must disable erosion"
    );
}

#[test]
fn an_explicit_mask_input_localizes_erosion() {
    let input = spike_field(false);
    let selection = terrain(32, 32, |_, _| 0.0);
    let out = thermal(&input, Some(&selection), THERMAL, &world()).unwrap();
    assert_eq!(
        bits(heights(&input)),
        bits(heights(&out[0])),
        "a zero mask input must disable erosion"
    );
}

#[test]
fn a_selection_drives_erosion_through_the_mask_input() {
    let input = fractal_terrain(64, 64, 42);
    let c = World::new(64, 64, 42);
    let scale = c.slope_scale() as f32;
    let selection = Slope::eval(&input, 0.0, &|dx: Span<f32>, dy: Span<f32>| {
        let gx = (dx.after - dx.before) * scale / dx.cells as f32;
        let gy = (dy.after - dy.before) * scale / dy.cells as f32;
        let angle = (gx * gx + gy * gy).sqrt().atan().to_degrees();
        let lower = smoothstep(10.0, 20.0, angle);
        let upper = 1.0 - smoothstep(50.0, 60.0, angle);
        (lower * upper).clamp(0.0, 1.0)
    });
    let localized = thermal(&input, Some(&selection), THERMAL, &c).unwrap();
    let everywhere = thermal(&input, None, THERMAL, &c).unwrap();
    assert_ne!(
        bits(heights(&localized[0])),
        bits(heights(&everywhere[0])),
        "a wired selection must localize erosion"
    );
}

#[test]
fn the_mask_input_overrides_the_mask_layer() {
    let input = with_layer(spike_field(false), MASK, Layer::filled(32, 32, 1.0));
    let protect = terrain(32, 32, |_, _| 0.0);
    let out = thermal(&input, Some(&protect), THERMAL, &world()).unwrap();
    assert_eq!(
        bits(heights(&input)),
        bits(heights(&out[0])),
        "the mask input must override the mask layer"
    );
}

#[test]
fn diagonal_symmetry_no_star_bias() {
    let out = erode(&spike_field(false));
    let h = layer(&out[0], HEIGHT);
    let orth = [h.get(15, 16), h.get(17, 16), h.get(16, 15), h.get(16, 17)];
    let diag = [h.get(15, 15), h.get(17, 17), h.get(15, 17), h.get(17, 15)];
    for w in orth.windows(2) {
        assert_eq!(w[0], w[1], "orthogonal neighbours must be equal");
    }
    for w in diag.windows(2) {
        assert_eq!(w[0], w[1], "diagonal neighbours must be equal");
    }
}

#[test]
fn cancelled_erosion_aborts() {
    let input = spike_field(false);
    assert!(thermal(&input, None, THERMAL, &world().cancelled()).is_none());
}

#[test]
fn passes_are_bounded_and_never_none_when_asked() {
    assert_eq!(ThermalErosion::base_passes(-5), 0);
    assert_eq!(ThermalErosion::base_passes(200_000), 100_000);
    assert_eq!(ThermalErosion::passes(0, 12), 0);
    assert_eq!(ThermalErosion::passes(1, 0), 1);
    assert_eq!(ThermalErosion::passes(35, 70), 70);
    assert_eq!(ThermalErosion::passes(35, 2_000_000), 1_000_000);
}

/// A field whose height is a left-to-right ramp from 0 to 1.
fn ramp_field(size: usize) -> Terrain {
    terrain(size, size, |x, _| x as f32 / (size - 1) as f32)
}

#[test]
fn slope_mask_is_high_on_a_ramp_and_zero_on_a_flat() {
    let ramped = mask(&ramp_field(16), "slope", 0.0, 0.5);
    assert!(layer(&ramped, MASK).get(8, 8).unwrap() > 0.99, "steep interior should mask ~1");
    let flat_mask = mask(&terrain(16, 16, |_, _| 0.5), "slope", 0.0, 0.5);
    assert_eq!(layer(&flat_mask, MASK).get(8, 8).unwrap(), 0.0);
}

#[test]
fn height_mask_selects_by_elevation() {
    let masked = mask(&ramp_field(32), "height", 0.4, 0.6);
    let m = layer(&masked, MASK);
    assert_eq!(m.get(0, 0).unwrap(), 0.0);
    assert_eq!(m.get(31, 0).unwrap(), 1.0);
    let row: Vec<f32> = (0..32).map(|x| m.get(x, 0).unwrap()).collect();
    assert!(row.windows(2).all(|w| w[1] >= w[0]), "mask must rise with height");
}

#[test]
fn mask_stays_in_unit_range() {
    let masked = mask(&ramp_field(16), "slope", 0.0, 0.5);
    assert!(layer(&masked, MASK).cells.iter().all(|&v| (0.0..=1.0).contains(&v)));
}

#[test]
fn height_passes_through() {
    let input = ramp_field(16);
    let masked = mask(&input, "slope", 0.0, 0.5);
    assert_eq!(
        bits(heights(&input)),
        bits(heights(&masked)),
        "the height layer must pass through unchanged"
    );
}

#[test]
fn mask_is_deterministic() {
    let input = ramp_field(16);
    let run = || bits(&layer(&mask(&input, "slope", 0.0, 0.5), MASK).cells);
    assert_eq!(run(), run());
}

#[test]
fn erosion_reads_the_generated_mask() {
    let input = ramp_field(16);
    let masked = mask(&input, "height", 0.0, 1.0);
    let p = Thermal { talus: 0.0, strength: 1.0, iterations: 5 };
    let c = World::new(16, 16, 0);
    let selective = thermal(&masked, None, p, &c).unwrap();
    let uniform = thermal(&input, None, p, &c).unwrap();
    assert_ne!(bits(heights(&selective[0])), bits(heights(&uniform[0])));
}

#[test]
fn masked_out_regions_are_preserved_by_erosion() {
    let input = ramp_field(16);
    let masked = mask(&input, "height", 0.45, 0.55);
    let p = Thermal { talus: 0.0, strength: 1.0, iterations: 20 };
    let eroded = thermal(&masked, None, p, &World::new(16, 16, 0)).unwrap().remove(0);
    let m = layer(&masked, MASK);
    for y in 0..16 {
        for x in 0..16 {
            if m.get(x, y).unwrap() == 0.0 {
                assert_eq!(
                    at(&masked, x, y),
                    at(&eroded, x, y),
                    "masked-out cell ({x},{y}) must be untouched"
                );
            }
        }
    }
}

#[test]
fn an_unknown_mask_mode_reads_the_slope() {
    let input = ramp_field(16);
    let a = mask(&input, "curvature", 0.0, 0.5);
    let b = mask(&input, "slope", 0.0, 0.5);
    assert_eq!(bits(&layer(&a, MASK).cells), bits(&layer(&b, MASK).cells));
}

#[test]
fn the_device_schedule_alternates_the_grids() {
    assert!(schedule(0, 5).is_none());
    assert!(schedule(16, 0).is_none());
    let s = schedule(16, 3).unwrap();
    let step = |phase, reads, writes| Dispatch { phase, reads, writes };
    use_grids(&s.dispatches, &[
        step(Phase::Shed, HeightGrid::A, HeightGrid::B),
        step(Phase::Gather, HeightGrid::A, HeightGrid::B),
        step(Phase::Shed, HeightGrid::B, HeightGrid::A),
        step(Phase::Gather, HeightGrid::B, HeightGrid::A),
        step(Phase::Shed, HeightGrid::A, HeightGrid::B),
        step(Phase::Gather, HeightGrid::A, HeightGrid::B),
    ]);
    assert_eq!(s.result, HeightGrid::B);
    assert_eq!(schedule(16, 2).unwrap().result, HeightGrid::A);
}

fn use_grids(got: &[Dispatch], want: &[Dispatch]) {
    assert_eq!(got, want);
}

#[test]
fn the_device_reads_four_words_in_order() {
    let u = Uniform {
        width: 3,
        height: 0x0102_0304,
        talus_per_cell: 0.5_f32.to_bits(),
        strength: 1.0_f32.to_bits(),
    };
    let mut want: Vec<u8> = Vec::new();
    for word in [u.width, u.height, u.talus_per_cell, u.strength] {
        want.extend(word.to_ne_bytes());
    }
    assert_eq!(u.bytes(), want);
}

#[test]
fn one_pass_moves_what_the_excess_asks() {
    // A cell one above four level neighbours: each straight neighbour has an excess of 1, each
    // diagonal one of 1; half the strength of the largest moves, split by excess.
    let grid = Grid { width: 3, height: 3 };
    let mut h = vec![0.0_f32; 9];
    h[4] = 1.0;
    let f = TalusFns {
        zero: 0.0_f32,
        excess: |a: f32, b: f32, _: bool| if a > b { Some(a - b) } else { None },
        tally: |(t, m): (f32, f32), e: f32| (t + e, m.max(e)),
        shed: |m: f32| m * 0.5,
        lose: |s: f32| -s,
        gain: |n: f32, (s, e, t): (f32, f32, f32)| n + s * (e / t),
        settle: |h: f32, n: f32| h + n,
    };
    let out = ymir_nodes::talus::relax_pass(&h, &grid, &f);
    assert_eq!(out[4], 0.5);
    assert!(out.iter().enumerate().all(|(c, &v)| c == 4 || v == 0.0625));
}

#[test]
fn a_pass_keeps_the_sum_of_exact_heights() {
    // A spike of 80 sheds 40, five to each of its eight neighbours.
    let f = TalusFns {
        zero: 0_i64,
        excess: |a: i64, b: i64, _: bool| if a > b { Some(a - b) } else { None },
        tally: |(total, most): (i64, i64), e: i64| (total + e, most.max(e)),
        shed: |most: i64| most / 2,
        lose: |shed: i64| -shed,
        gain: |net: i64, (shed, e, total): (i64, i64, i64)| net + shed * e / total,
        settle: |h: i64, net: i64| h + net,
    };
    let grid = Grid { width: 3, height: 3 };
    let spike = vec![0, 0, 0, 0, 80, 0, 0, 0, 0];
    let after = relax_pass(&spike, &grid, &f);
    assert_eq!(after, [5, 5, 5, 5, 40, 5, 5, 5, 5]);
    assert_eq!(after.iter().sum::<i64>(), 80);
}

#[test]
fn a_table_of_cells_is_enough_for_a_generator() {
    // The per-cell functions are only asked about cells of the field.
    let table = [0.25_f32, 0.5, 0.75, 1.0];
    let field = Radial::eval(2, 2, UNIT, &|x: usize, y: usize| table[y * 2 + x]);
    assert_eq!(heights(&field), table);
}
