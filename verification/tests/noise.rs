#![allow(dead_code)]
use ymir_nodes::field::{Field, Layer, HEIGHT};
use ymir_nodes::nodes::flow::{FLOW_X, FLOW_Y};
use ymir_nodes::noise::{
    gradient, hash_coords, hash_unit, layer_octaves, node_seed, octave_seed, octaves, worley,
    worley_height, FeatureFns, WorleyFeature, FLOW_BASE_SALT,
};
use ymir_nodes::{Fbm, Flow, Hybrid};

/// The part of the world a field covers.
#[derive(Clone, Copy, Debug, PartialEq)]
struct Region {
    min_x: f64,
    min_y: f64,
    max_x: f64,
    max_y: f64,
}

const UNIT: Region = Region { min_x: 0.0, min_y: 0.0, max_x: 1.0, max_y: 1.0 };

impl Region {
    fn width(&self) -> f64 {
        self.max_x - self.min_x
    }

    fn height(&self) -> f64 {
        self.max_y - self.min_y
    }
}

type Terrain = Field<f32, Region>;

fn terrain(width: usize, height: usize, cell: impl Fn(usize, usize) -> f32) -> Terrain {
    let mut field = Field::new(width, height, UNIT);
    field.set_layer(HEIGHT, Layer::from_fn(width, height, &cell));
    field
}

fn with_layer(mut field: Terrain, name: &str, layer: Layer<f32>) -> Terrain {
    field.set_layer(name, layer);
    field
}

fn layer<'a>(field: &'a Terrain, name: &str) -> &'a Layer<f32> {
    field.layer(name).expect("the layer is there")
}

fn heights(field: &Terrain) -> &[f32] {
    &layer(field, HEIGHT).cells
}

/// The exact bits of a layer, for comparing results byte by byte.
fn bits(values: &[f32]) -> Vec<u32> {
    values.iter().map(|v| v.to_bits()).collect()
}

fn at(field: &Terrain, x: usize, y: usize) -> f32 {
    layer(field, HEIGHT).get(x, y).expect("the cell is on the field")
}

fn sum(field: &Terrain) -> f64 {
    heights(field).iter().map(|&v| f64::from(v)).sum()
}

/// What the world is, as far as the nodes read it.
#[derive(Clone, Copy)]
struct World {
    width: usize,
    height: usize,
    seed: u64,
    extent: f64,
    tall: f64,
    cancelled: bool,
}

impl World {
    fn new(width: usize, height: usize, seed: u64) -> Self {
        World { width, height, seed, extent: 1.0, tall: 1.0, cancelled: false }
    }

    fn with_extent(self, extent: f64) -> Self {
        World { extent, ..self }
    }

    fn with_height(self, tall: f64) -> Self {
        World { tall, ..self }
    }

    fn cancelled(self) -> Self {
        World { cancelled: true, ..self }
    }

    fn meters_per_cell(&self) -> f64 {
        self.extent / self.width as f64
    }

    fn world_to_cells(&self, meters: f64) -> f64 {
        meters / self.meters_per_cell()
    }

    fn slope_scale(&self) -> f64 {
        self.tall / self.meters_per_cell()
    }
}

/// The twelve unit gradient directions, every 30 degrees.
const GRADIENT_DIRS: [(f32, f32); 12] = [
    (1.0, 0.0),
    (0.866_025_4, 0.5),
    (0.5, 0.866_025_4),
    (0.0, 1.0),
    (-0.5, 0.866_025_4),
    (-0.866_025_4, 0.5),
    (-1.0, 0.0),
    (-0.866_025_4, -0.5),
    (-0.5, -0.866_025_4),
    (0.0, -1.0),
    (0.5, -0.866_025_4),
    (0.866_025_4, -0.5),
];

fn corner(seed: u64, ix: i32, iy: i32, dx: f32, dy: f32) -> f32 {
    let t = 0.5 - dx * dx - dy * dy;
    if t <= 0.0 {
        0.0
    } else {
        let (gx, gy) = GRADIENT_DIRS[gradient(seed, ix, iy)];
        let t2 = t * t;
        t2 * t2 * (gx * dx + gy * dy)
    }
}

/// Simplex noise, roughly in `[-1, 1]`.
fn simplex(seed: u64, x: f32, y: f32) -> f32 {
    let s = (x + y) * 0.366_025_42;
    let i = (x + s).floor();
    let j = (y + s).floor();
    let (ii, jj) = (i as i32, j as i32);
    let g = 0.211_324_87;
    let t = (i + j) * g;
    let x0 = x - (i - t);
    let y0 = y - (j - t);
    let (i1, j1) = if x0 > y0 { (1, 0) } else { (0, 1) };
    let n0 = corner(seed, ii, jj, x0, y0);
    let n1 = corner(seed, ii + i1, jj + j1, x0 - i1 as f32 + g, y0 - j1 as f32 + g);
    let n2 = corner(seed, ii + 1, jj + 1, x0 - 1.0 + 2.0 * g, y0 - 1.0 + 2.0 * g);
    100.0 * (n0 + n1 + n2)
}

/// Fractal noise, roughly in `[-1, 1]`: the octaves' sum, their amplitude, and the next octave's
/// frequency and amplitude.
fn fractal(seed: u64, x: f32, y: f32, octaves: u32, lacunarity: f32, gain: f32) -> f32 {
    let step = |(sum, total, frequency, amplitude): (f32, f32, f32, f32), _: u32, seed: u64| {
        (
            sum + amplitude * simplex(seed, x * frequency, y * frequency),
            total + amplitude,
            frequency * lacunarity,
            amplitude * gain,
        )
    };
    let (sum, total, _, _) = layer_octaves(seed, octaves, (0.0, 0.0, 1.0, 1.0), &step);
    if total > 0.0 {
        sum / total
    } else {
        0.0
    }
}

/// The default fractal terrain.
fn fractal_terrain(width: usize, height: usize, seed: u64) -> Terrain {
    terrain(width, height, |x, y| {
        let u = (x as f64 + 0.5) / width as f64;
        let v = (y as f64 + 0.5) / height as f64;
        let n = fractal(seed, (u * 2.0) as f32, (v * 2.0) as f32, 5, 2.0, 0.5);
        (0.5 * n + 0.5).clamp(0.0, 1.0)
    })
}

#[derive(Clone, Copy)]
struct Fractal {
    frequency: f64,
    octaves: u32,
    lacunarity: f32,
    gain: f32,
    offset: (f64, f64),
}

const FRACTAL: Fractal = Fractal { frequency: 2.0, octaves: 5, lacunarity: 2.0, gain: 0.5, offset: (0.0, 0.0) };

/// Where a cell samples the noise.
fn place(x: usize, y: usize, size: usize, frequency: f64, offset: (f64, f64)) -> (f32, f32) {
    let u = (x as f64 + 0.5) / size as f64 + offset.0;
    let v = (y as f64 + 0.5) / size as f64 + offset.1;
    ((u * frequency) as f32, (v * frequency) as f32)
}

fn fbm_field(size: usize, p: Fractal, seed: u64, scale: Option<(f32, f32)>) -> Terrain {
    let shape = |x: usize, y: usize| {
        let (wx, wy) = place(x, y, size, p.frequency, p.offset);
        (0.5 * fractal(seed, wx, wy, p.octaves, p.lacunarity, p.gain) + 0.5).clamp(0.0, 1.0)
    };
    let (amplitude, bias) = scale.unwrap_or((1.0, 0.0));
    let lifted = |v: f32| v * amplitude + bias;
    let wanted = if amplitude != 1.0 || bias != 0.0 { Some(&lifted) } else { None };
    Fbm::eval(size, size, UNIT, 0.0, &shape, wanted)
}

/// The fractal node in a world `extent` meters across.
fn fbm_node(size: usize, world: (u64, f64), own: i64, wavelength: f64, pan: (f64, f64)) -> Terrain {
    let (seed, extent) = world;
    let frequency = if extent > 0.0 && wavelength > 0.0 { extent / wavelength } else { 1.0 };
    let offset = (pan.0 / extent, pan.1 / extent);
    let p = Fractal { frequency, octaves: octaves(5), offset, ..FRACTAL };
    fbm_field(size, p, node_seed(seed, own), None)
}

fn default_fbm() -> Terrain {
    fbm_node(8, (42, 1024.0), 0, 512.0, (0.0, 0.0))
}

#[test]
fn fbm_eval_is_deterministic() {
    let run = || bits(heights(&fbm_node(64, (99, 1.0), 0, 512.0, (0.0, 0.0))));
    assert_eq!(run(), run());
}

#[test]
fn fbm_the_seed_param_rerolls_just_this_node() {
    let rerolled = fbm_node(8, (42, 1024.0), 1, 512.0, (0.0, 0.0));
    assert_ne!(bits(heights(&default_fbm())), bits(heights(&rerolled)));
}

#[test]
fn the_offset_param_pans_the_texture() {
    let panned = fbm_node(8, (42, 1024.0), 0, 512.0, (2.0 * 1024.0, 0.0));
    assert_ne!(bits(heights(&default_fbm())), bits(heights(&panned)));
}

#[test]
fn widening_the_world_keeps_the_terrain_where_it_was() {
    let small = fbm_node(32, (5, 1024.0), 0, 256.0, (3000.0, -1500.0));
    let large = fbm_node(128, (5, 4096.0), 0, 256.0, (3000.0, -1500.0));
    for y in 0..32 {
        for x in 0..32 {
            let (a, b) = (at(&small, x, y), at(&large, x, y));
            assert!((a - b).abs() < 1e-6, "cell ({x}, {y}) moved when the world grew: {a} then {b}");
        }
    }
}

#[test]
fn the_pan_reaches_a_neighbouring_patch_not_only_a_whole_map_away() {
    let nudged = fbm_node(8, (42, 1024.0), 0, 512.0, (10.0, 0.0));
    assert_ne!(
        bits(heights(&default_fbm())),
        bits(heights(&nudged)),
        "a hundredth of a map must pan the noise"
    );
}

#[test]
fn a_feature_keeps_its_real_size_when_the_world_grows() {
    let a = fbm_node(64, (3, 1024.0), 0, 256.0, (0.0, 0.0));
    let b = fbm_node(64, (3, 4096.0), 0, 256.0, (0.0, 0.0));
    assert_ne!(
        bits(heights(&a)),
        bits(heights(&b)),
        "four times the world at a fixed feature size must sample four times as much noise"
    );
    let quarter = fbm_node(64, (3, 4096.0), 0, 1024.0, (0.0, 0.0));
    assert_eq!(
        bits(heights(&a)),
        bits(heights(&quarter)),
        "a quarter of the world is a quarter of the world, whatever the world measures"
    );
}

#[test]
fn a_world_with_no_extent_still_makes_noise() {
    let out = fbm_node(16, (1, 1.0), 0, 512.0, (0.0, 0.0));
    assert!(heights(&out).iter().all(|v| v.is_finite()), "no NaN from a degenerate world");
}

#[test]
fn amplitude_scales_and_bias_shifts_the_output() {
    let range = |f: &Terrain| {
        let lo = heights(f).iter().copied().fold(f32::INFINITY, f32::min);
        let hi = heights(f).iter().copied().fold(f32::NEG_INFINITY, f32::max);
        hi - lo
    };
    let base = fbm_field(8, FRACTAL, 42, None);
    let flat = fbm_field(8, FRACTAL, 42, Some((0.0, 0.3)));
    for &v in heights(&flat) {
        assert!((v - 0.3).abs() < 1e-6, "amplitude 0 should flatten to bias, got {v}");
    }
    let half = fbm_field(8, FRACTAL, 42, Some((0.5, 0.0)));
    assert!((range(&half) - 0.5 * range(&base)).abs() < 1e-6, "amplitude 0.5 should halve the range");
}

#[test]
fn fbm_field_is_deterministic() {
    let run = || bits(heights(&fbm_field(64, FRACTAL, 42, None)));
    assert_eq!(run(), run());
}

#[test]
fn offset_pans_the_field() {
    let a = fbm_field(64, FRACTAL, 42, None);
    let b = fbm_field(64, Fractal { offset: (1.5, 0.0), ..FRACTAL }, 42, None);
    assert_ne!(bits(heights(&a)), bits(heights(&b)));
}

#[test]
fn different_seeds_give_different_output() {
    let a = fbm_field(64, FRACTAL, 1, None);
    let b = fbm_field(64, FRACTAL, 2, None);
    assert_ne!(bits(heights(&a)), bits(heights(&b)));
}

#[test]
fn noise_output_stays_in_unit_range() {
    assert!(in_unit_range(&fbm_field(96, FRACTAL, 7, None)));
}

#[test]
fn noise_output_is_not_constant() {
    let field = fbm_field(64, FRACTAL, 7, None);
    let first = heights(&field)[0];
    assert!(heights(&field).iter().any(|&v| v != first), "noise should vary across the field");
}

fn in_unit_range(field: &Terrain) -> bool {
    heights(field).iter().all(|v| (0.0..=1.0).contains(v))
}

fn hybrid(size: usize, world: u64, own: i64, bias: f32) -> Terrain {
    let seed = node_seed(world, own);
    let p = FRACTAL;
    Hybrid::eval(size, size, UNIT, &|x: usize, y: usize| {
        let (wx, wy) = place(x, y, size, p.frequency, p.offset);
        let step = |(result, weight, frequency, amplitude): (f32, f32, f32, f32), octave: u32, seed: u64| {
            let signal = (simplex(seed, wx * frequency, wy * frequency) + bias) * amplitude;
            let (result, weight) = if octave == 0 {
                (signal, signal)
            } else {
                let w = weight.min(1.0);
                (result + w * signal, w * signal)
            };
            (result, weight, frequency * p.lacunarity, amplitude * p.gain)
        };
        let (result, _, _, _) = layer_octaves(seed, p.octaves, (0.0, 1.0, 1.0, 1.0), &step);
        let octave_sum = (1.0 - p.gain.powi(p.octaves as i32)) / (1.0 - p.gain);
        (result / ((1.0 + bias) * octave_sum)).clamp(0.0, 1.0)
    })
}

#[test]
fn hybrid_eval_is_deterministic() {
    assert_eq!(bits(heights(&hybrid(64, 99, 0, 0.7))), bits(heights(&hybrid(64, 99, 0, 0.7))));
}

#[test]
fn hybrid_output_stays_in_unit_range() {
    assert!(in_unit_range(&hybrid(96, 7, 0, 0.7)));
}

#[test]
fn hybrid_output_is_not_constant() {
    let field = hybrid(64, 7, 0, 0.7);
    let first = heights(&field)[0];
    assert!(heights(&field).iter().any(|&v| v != first), "hybrid noise should vary across the field");
}

#[test]
fn hybrid_the_seed_param_rerolls_just_this_node() {
    assert_ne!(bits(heights(&hybrid(8, 42, 0, 0.7))), bits(heights(&hybrid(8, 42, 1, 0.7))));
}

#[test]
fn the_bias_changes_the_terrain() {
    assert_ne!(bits(heights(&hybrid(8, 42, 0, 0.3))), bits(heights(&hybrid(8, 42, 0, 1.2))));
}

#[test]
fn differs_from_fbm_at_the_same_seed() {
    assert_ne!(bits(heights(&hybrid(8, 42, 0, 0.7))), bits(heights(&fbm_field(8, FRACTAL, 42, None))));
}

fn curl(seed: u64, x: f32, y: f32) -> (f32, f32) {
    let n = |x: f32, y: f32| fractal(seed, x, y, 5, 2.0, 0.5);
    let eps = 0.01_f32;
    let dx = (n(x + eps, y) - n(x - eps, y)) / (2.0 * eps);
    let dy = (n(x, y + eps) - n(x, y - eps)) / (2.0 * eps);
    (dy, -dx)
}

fn flow(size: usize, world: u64, own: i64, strength: f32) -> Terrain {
    let seed = node_seed(world, own);
    Flow::eval(size, size, UNIT, &|x: usize, y: usize| {
        let (wx, wy) = place(x, y, size, 2.0, (0.0, 0.0));
        let (vx, vy) = curl(seed, wx, wy);
        let n = fractal(seed ^ FLOW_BASE_SALT, wx + strength * vx, wy + strength * vy, 5, 2.0, 0.5);
        ((0.5 * n + 0.5).clamp(0.0, 1.0), vx, vy)
    })
}

#[test]
fn flow_eval_is_deterministic() {
    assert_eq!(bits(heights(&flow(64, 99, 0, 0.4))), bits(heights(&flow(64, 99, 0, 0.4))));
}

#[test]
fn output_stays_in_unit_range_and_varies() {
    let out = flow(96, 7, 0, 0.4);
    assert!(in_unit_range(&out));
    let first = heights(&out)[0];
    assert!(heights(&out).iter().any(|&v| v != first), "flow noise should vary across the field");
}

#[test]
fn writes_the_flow_vector_layers() {
    let out = flow(32, 7, 0, 0.4);
    assert!(layer(&out, FLOW_X).cells.iter().any(|&v| v != 0.0));
    assert!(layer(&out, FLOW_Y).cells.iter().any(|&v| v != 0.0));
}

#[test]
fn strength_changes_the_swirl() {
    assert_ne!(bits(heights(&flow(8, 42, 0, 0.0))), bits(heights(&flow(8, 42, 0, 1.0))));
}

#[test]
fn flow_the_seed_param_rerolls_just_this_node() {
    assert_ne!(bits(heights(&flow(8, 42, 0, 0.4))), bits(heights(&flow(8, 42, 1, 0.4))));
}

fn worley_field(size: usize, frequency: f64, jitter: f32, feature: WorleyFeature, seed: u64) -> Terrain {
    let unit = |u: u32| u as f32 / 16_777_216.0;
    let f = FeatureFns {
        bumps: |d: u32| (1.0 - f32::from_bits(d).sqrt()).clamp(0.0, 1.0),
        cracks: |a: u32, b: u32| (1.0 - (f32::from_bits(b).sqrt() - f32::from_bits(a).sqrt())).clamp(0.0, 1.0),
        regions: unit,
    };
    terrain(size, size, |x, y| {
        let (wx, wy) = place(x, y, size, frequency, (0.0, 0.0));
        let apart = |cx: i32, cy: i32, jx: u32, jy: u32| {
            let px = cx as f32 + jitter * unit(jx);
            let py = cy as f32 + jitter * unit(jy);
            ((px - wx).powi(2) + (py - wy).powi(2)).to_bits()
        };
        let nearest = worley(seed, wx.floor() as i32, wy.floor() as i32, &apart);
        worley_height(feature, seed, nearest, &f)
    })
}

#[test]
fn worley_field_is_deterministic() {
    for feature in [WorleyFeature::Bumps, WorleyFeature::Cracks, WorleyFeature::Regions] {
        let run = || bits(heights(&worley_field(64, 8.0, 1.0, feature, 42)));
        assert_eq!(run(), run(), "feature {feature:?}");
    }
}

#[test]
fn worley_features_differ_and_stay_in_range() {
    let bumps = worley_field(64, 8.0, 1.0, WorleyFeature::Bumps, 7);
    let cracks = worley_field(64, 8.0, 1.0, WorleyFeature::Cracks, 7);
    let regions = worley_field(64, 8.0, 1.0, WorleyFeature::Regions, 7);
    assert_ne!(bits(heights(&bumps)), bits(heights(&cracks)));
    assert_ne!(bits(heights(&bumps)), bits(heights(&regions)));
    for field in [&bumps, &cracks, &regions] {
        assert!(in_unit_range(field));
    }
}

#[test]
fn worley_jitter_changes_the_pattern() {
    let a = worley_field(64, 8.0, 0.0, WorleyFeature::Bumps, 7);
    let b = worley_field(64, 8.0, 1.0, WorleyFeature::Bumps, 7);
    assert_ne!(bits(heights(&a)), bits(heights(&b)));
}

#[test]
fn the_two_nearest_points_are_ranked() {
    // Points at the cells' origins, seen from the cell (0, 0): the distance is the cell's place in
    // reading order from the far corner.
    let apart = |cx: i32, cy: i32, _: u32, _: u32| (20 - (3 * cy + cx)) as u32;
    let n = worley(0, 0, 0, &apart);
    assert_eq!((n.first, n.second, n.cell), (16, 17, (1, 1)));
    // Of equally near points the earliest in reading order counts as the nearest.
    let even = worley(0, 5, 5, &|_: i32, _: i32, _: u32, _: u32| 3);
    assert_eq!((even.first, even.second, even.cell), (3, 3, (4, 4)));
}

/// The mixing of the lattice hash, step by step.
fn mixed_hash(seed: u64, ix: i32, iy: i32) -> u64 {
    let mut h = seed;
    h ^= (ix as i64 as u64).wrapping_mul(0x9E37_79B9_7F4A_7C15);
    h ^= (iy as i64 as u64).wrapping_mul(0xC2B2_AE3D_27D4_EB4F);
    h ^= h >> 30;
    h = h.wrapping_mul(0xBF58_476D_1CE4_E5B9);
    h ^= h >> 27;
    h = h.wrapping_mul(0x94D0_49BB_1331_11EB);
    h ^ (h >> 31)
}

#[test]
fn the_lattice_hash_is_the_finalizer_of_the_mixed_coordinates() {
    assert_eq!(hash_coords(0, 0, 0), 0);
    assert_eq!(hash_coords(0, 1, 0), 0xE220_A839_7B1D_CDAF);
    for (seed, ix, iy) in [(42, 3, -7), (u64::MAX, i32::MIN, i32::MAX), (7, -1, -1)] {
        let h = mixed_hash(seed, ix, iy);
        assert_eq!(hash_coords(seed, ix, iy), h);
        assert_eq!(hash_unit(seed, ix, iy), (h & 0xFF_FFFF) as u32);
        assert_eq!(gradient(seed, ix, iy), (h % 12) as usize);
    }
}

#[test]
fn octaves_and_seeds_stay_apart() {
    assert_eq!((octaves(-1), octaves(5), octaves(99)), (0, 5, 32));
    assert_eq!(octave_seed(0, 0), 0x9E37_79B9_7F4A_7C15);
    assert_eq!(octave_seed(1, 1), 1 ^ 0x9E37_79B9_7F4A_7C15_u64.wrapping_mul(2));
    let mut seeds: Vec<u64> = (0..32).map(|k| octave_seed(9, k)).collect();
    seeds.sort_unstable();
    seeds.dedup();
    assert_eq!(seeds.len(), 32);
    assert_eq!((node_seed(5, 0), node_seed(5, -6), node_seed(u64::MAX, 2)), (5, u64::MAX, 1));
}

#[test]
fn seeds_hash_apart() {
    for (ix, iy) in [(0, 0), (3, -7), (i32::MIN, i32::MAX)] {
        let mut hashes: Vec<u64> = (0..64).map(|seed| hash_coords(seed, ix, iy)).collect();
        hashes.sort_unstable();
        hashes.dedup();
        assert_eq!(hashes.len(), 64);
        assert_ne!(hash_coords(0, ix, iy), hash_coords(1 << 63, ix, iy));
    }
}
