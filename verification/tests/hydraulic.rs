#![allow(dead_code)]
use ymir_nodes::field::{Field, Layer, HEIGHT};
use ymir_nodes::noise::{gradient, layer_octaves};
use ymir_nodes::brush::{radius, Brush};
use ymir_nodes::droplet::{Act, DropletFns};
use ymir_nodes::HydraulicErosion;
use ymir_nodes::rng::{droplet_seed, SplitMix64};

/// The part of the world a field covers.
#[derive(Clone, Copy, Debug, PartialEq)]
struct Region {
    min_x: f64,
    min_y: f64,
    max_x: f64,
    max_y: f64,
}

const UNIT: Region = Region { min_x: 0.0, min_y: 0.0, max_x: 1.0, max_y: 1.0 };

impl Region {
    fn width(&self) -> f64 {
        self.max_x - self.min_x
    }

    fn height(&self) -> f64 {
        self.max_y - self.min_y
    }
}

type Terrain = Field<f32, Region>;

fn terrain(width: usize, height: usize, cell: impl Fn(usize, usize) -> f32) -> Terrain {
    let mut field = Field::new(width, height, UNIT);
    field.set_layer(HEIGHT, Layer::from_fn(width, height, &cell));
    field
}

fn with_layer(mut field: Terrain, name: &str, layer: Layer<f32>) -> Terrain {
    field.set_layer(name, layer);
    field
}

fn layer<'a>(field: &'a Terrain, name: &str) -> &'a Layer<f32> {
    field.layer(name).expect("the layer is there")
}

fn heights(field: &Terrain) -> &[f32] {
    &layer(field, HEIGHT).cells
}

/// The exact bits of a layer, for comparing results byte by byte.
fn bits(values: &[f32]) -> Vec<u32> {
    values.iter().map(|v| v.to_bits()).collect()
}

fn at(field: &Terrain, x: usize, y: usize) -> f32 {
    layer(field, HEIGHT).get(x, y).expect("the cell is on the field")
}

fn sum(field: &Terrain) -> f64 {
    heights(field).iter().map(|&v| f64::from(v)).sum()
}

/// What the world is, as far as the nodes read it.
#[derive(Clone, Copy)]
struct World {
    width: usize,
    height: usize,
    seed: u64,
    extent: f64,
    tall: f64,
    cancelled: bool,
}

impl World {
    fn new(width: usize, height: usize, seed: u64) -> Self {
        World { width, height, seed, extent: 1.0, tall: 1.0, cancelled: false }
    }

    fn with_extent(self, extent: f64) -> Self {
        World { extent, ..self }
    }

    fn with_height(self, tall: f64) -> Self {
        World { tall, ..self }
    }

    fn cancelled(self) -> Self {
        World { cancelled: true, ..self }
    }

    fn meters_per_cell(&self) -> f64 {
        self.extent / self.width as f64
    }

    fn world_to_cells(&self, meters: f64) -> f64 {
        meters / self.meters_per_cell()
    }

    fn slope_scale(&self) -> f64 {
        self.tall / self.meters_per_cell()
    }
}

/// The twelve unit gradient directions, every 30 degrees.
const GRADIENT_DIRS: [(f32, f32); 12] = [
    (1.0, 0.0),
    (0.866_025_4, 0.5),
    (0.5, 0.866_025_4),
    (0.0, 1.0),
    (-0.5, 0.866_025_4),
    (-0.866_025_4, 0.5),
    (-1.0, 0.0),
    (-0.866_025_4, -0.5),
    (-0.5, -0.866_025_4),
    (0.0, -1.0),
    (0.5, -0.866_025_4),
    (0.866_025_4, -0.5),
];

fn corner(seed: u64, ix: i32, iy: i32, dx: f32, dy: f32) -> f32 {
    let t = 0.5 - dx * dx - dy * dy;
    if t <= 0.0 {
        0.0
    } else {
        let (gx, gy) = GRADIENT_DIRS[gradient(seed, ix, iy)];
        let t2 = t * t;
        t2 * t2 * (gx * dx + gy * dy)
    }
}

/// Simplex noise, roughly in `[-1, 1]`.
fn simplex(seed: u64, x: f32, y: f32) -> f32 {
    let s = (x + y) * 0.366_025_42;
    let i = (x + s).floor();
    let j = (y + s).floor();
    let (ii, jj) = (i as i32, j as i32);
    let g = 0.211_324_87;
    let t = (i + j) * g;
    let x0 = x - (i - t);
    let y0 = y - (j - t);
    let (i1, j1) = if x0 > y0 { (1, 0) } else { (0, 1) };
    let n0 = corner(seed, ii, jj, x0, y0);
    let n1 = corner(seed, ii + i1, jj + j1, x0 - i1 as f32 + g, y0 - j1 as f32 + g);
    let n2 = corner(seed, ii + 1, jj + 1, x0 - 1.0 + 2.0 * g, y0 - 1.0 + 2.0 * g);
    100.0 * (n0 + n1 + n2)
}

/// Fractal noise, roughly in `[-1, 1]`: the octaves' sum, their amplitude, and the next octave's
/// frequency and amplitude.
fn fractal(seed: u64, x: f32, y: f32, octaves: u32, lacunarity: f32, gain: f32) -> f32 {
    let step = |(sum, total, frequency, amplitude): (f32, f32, f32, f32), _: u32, seed: u64| {
        (
            sum + amplitude * simplex(seed, x * frequency, y * frequency),
            total + amplitude,
            frequency * lacunarity,
            amplitude * gain,
        )
    };
    let (sum, total, _, _) = layer_octaves(seed, octaves, (0.0, 0.0, 1.0, 1.0), &step);
    if total > 0.0 {
        sum / total
    } else {
        0.0
    }
}

/// The default fractal terrain.
fn fractal_terrain(width: usize, height: usize, seed: u64) -> Terrain {
    terrain(width, height, |x, y| {
        let u = (x as f64 + 0.5) / width as f64;
        let v = (y as f64 + 0.5) / height as f64;
        let n = fractal(seed, (u * 2.0) as f32, (v * 2.0) as f32, 5, 2.0, 0.5);
        (0.5 * n + 0.5).clamp(0.0, 1.0)
    })
}

#[derive(Clone, Copy)]
struct Drop {
    x: f32,
    y: f32,
    dx: f32,
    dy: f32,
    speed: f32,
    water: f32,
    sediment: f32,
}

fn corner_weights(x: f32, y: f32, node: (usize, usize)) -> (f32, f32, f32, f32) {
    let (fx, fy) = (x - node.0 as f32, y - node.1 as f32);
    ((1.0 - fx) * (1.0 - fy), fx * (1.0 - fy), (1.0 - fx) * fy, fx * fy)
}

fn brush_of(requested: i64) -> Brush<f32> {
    let r = radius(requested);
    Brush::new(
        r,
        0.0_f32,
        &|dx: i32, dy: i32| 1.0 - ((dx * dx + dy * dy) as f32).sqrt() / r as f32,
        &|a: f32, b: f32| a + b,
        &|w: f32, total: f32| w / total,
    )
}

fn hydraulic(input: &Terrain, mask: Option<&Terrain>, density: f64, world: &World) -> Option<Vec<Terrain>> {
    let (inertia, capacity, erosion, deposition, evaporation) = (0.05_f32, 4.0_f32, 0.3_f32, 0.3_f32, 0.02_f32);
    let (width, height) = (input.width, input.height);
    let (span_x, span_y) = (width.max(1) as f32 - 1.0, height.max(1) as f32 - 1.0);
    let f = DropletFns {
        zero: 0.0_f32,
        node: |d: Drop| (d.x as usize, d.y as usize),
        height: |d: Drop, node: (usize, usize), h: (f32, f32, f32, f32)| {
            let w = corner_weights(d.x, d.y, node);
            h.0 * w.0 + h.1 * w.1 + h.2 * w.2 + h.3 * w.3
        },
        advance: |d: Drop, node: (usize, usize), (nw, ne, sw, se): (f32, f32, f32, f32)| {
            let (fx, fy) = (d.x - node.0 as f32, d.y - node.1 as f32);
            let gx = (ne - nw) * (1.0 - fy) + (se - sw) * fy;
            let gy = (sw - nw) * (1.0 - fx) + (se - ne) * fx;
            let mut dx = d.dx * inertia - gx * (1.0 - inertia);
            let mut dy = d.dy * inertia - gy * (1.0 - inertia);
            let len = (dx * dx + dy * dy).sqrt();
            if len > 1e-8 {
                dx /= len;
                dy /= len;
            }
            let (x, y) = (d.x + dx, d.y + dy);
            if (dx == 0.0 && dy == 0.0) || x < 0.0 || x > span_x || y < 0.0 || y > span_y {
                None
            } else {
                Some(Drop { x, y, dx, dy, ..d })
            }
        },
        weights: |d: Drop, node: (usize, usize)| corner_weights(d.x, d.y, node),
        act: |d: Drop, before: f32, after: f32| {
            let rise = after - before;
            let can = (-rise).max(0.01) * d.speed * d.water * capacity;
            if d.sediment > can || rise > 0.0 {
                Act::Deposit(if rise > 0.0 { rise.min(d.sediment) } else { (d.sediment - can) * deposition })
            } else {
                Act::Erode(((can - d.sediment) * erosion).min(-rise))
            }
        },
        part: |amount: f32, share: f32, mask: f32| amount * share * mask,
        plus: |a: f32, b: f32| a + b,
        minus: |a: f32, b: f32| a - b,
        visit: |n: f32| n + 1.0,
        settle: |d: Drop, (before, after): (f32, f32), dug: bool, total: f32| Drop {
            sediment: if dug { d.sediment + total } else { d.sediment - total },
            speed: (d.speed * d.speed - (after - before) * 4.0).max(0.0).sqrt(),
            water: d.water * (1.0 - evaporation),
            ..d
        },
    };
    let unit = |u: u32| u as f32 / (1u32 << 24) as f32;
    let start = |u: u32, v: u32| Drop {
        x: unit(u) * span_x,
        y: unit(v) * span_y,
        dx: 0.0,
        dy: 0.0,
        speed: 1.0,
        water: 1.0,
        sediment: 0.0,
    };
    let normalize = |flow: &Vec<f32>| {
        let max = flow.iter().copied().fold(0.0_f32, f32::max);
        let denom = (1.0 + max).ln().max(1e-6);
        flow.iter().map(|&f| ((1.0 + f.max(0.0)).ln() / denom).clamp(0.0, 1.0)).collect()
    };
    let droplets = (density.max(0.0) * (width * height) as f64).round() as usize;
    let lifetime = HydraulicErosion::lifetime((30.0 * width as f64 / 256.0).round() as usize);
    HydraulicErosion::eval(
        input,
        mask,
        (0.0, 1.0),
        &f,
        &start,
        &normalize,
        &brush_of(3),
        world.seed,
        lifetime,
        droplets,
        &|| world.cancelled,
    )
}

fn world(n: usize) -> World {
    World::new(n, n, 7)
}

#[test]
fn it_carves_and_deposits() {
    let input = fractal_terrain(64, 64, 3);
    let out = hydraulic(&input, None, 3.0, &world(64)).unwrap();
    assert_ne!(bits(heights(&out[0])), bits(heights(&input)), "erosion should modify the terrain");
    assert!(sum(&out[1]) > 0.0, "some material should be worn away");
    assert!(sum(&out[2]) > 0.0, "some material should be deposited");
}

#[test]
fn mask_protects_its_region() {
    let input = fractal_terrain(48, 48, 2);
    let zero = terrain(48, 48, |_, _| 0.0);
    let out = hydraulic(&input, Some(&zero), 3.0, &world(48)).unwrap();
    assert_eq!(
        bits(heights(&out[0])),
        bits(heights(&input)),
        "a fully masked-out field is unchanged"
    );
}

#[test]
fn zero_density_passes_terrain_through() {
    let input = fractal_terrain(48, 48, 1);
    let out = hydraulic(&input, None, 0.0, &world(48)).unwrap();
    assert_eq!(bits(heights(&out[0])), bits(heights(&input)));
}

#[test]
fn tiny_grid_passes_through() {
    let input = terrain(1, 1, |_, _| 0.5);
    let out = hydraulic(&input, None, 3.0, &world(1)).unwrap();
    assert_eq!(out.len(), 4);
    assert_eq!(at(&out[0], 0, 0), 0.5);
}

#[test]
fn hydraulic_cancellation_is_reported() {
    let input = fractal_terrain(64, 64, 4);
    assert!(hydraulic(&input, None, 16.0, &world(64).cancelled()).is_none());
}

#[test]
fn the_rain_is_repeatable() {
    let input = fractal_terrain(32, 32, 5);
    let run = || {
        let out = hydraulic(&input, None, 2.0, &world(32)).unwrap();
        out.iter().map(|f| bits(heights(f))).collect::<Vec<_>>()
    };
    assert_eq!(run(), run());
}

#[test]
fn material_worn_is_what_leaves_the_heights() {
    // What was dug and what was dropped account for every change of height.
    let input = fractal_terrain(32, 32, 6);
    let out = hydraulic(&input, None, 2.0, &world(32)).unwrap();
    let change = sum(&out[0]) - sum(&input);
    let moved = sum(&out[2]) - sum(&out[1]);
    assert!((change - moved).abs() < 1e-3, "{change} vs {moved}");
}

#[test]
fn the_stream_is_split_mix() {
    let mut s = SplitMix64::new(0);
    assert_eq!(s.next_u64(), 0xE220_A839_7B1D_CDAF);
    assert_eq!(s.next_u64(), 0x6E78_9E6A_A1B9_65F4);
    let mut s = SplitMix64::new(0);
    assert_eq!(s.next_unit(), 0xE2_20A8);
}

#[test]
fn droplets_draw_from_one_sequence() {
    // Droplet i starts where i draws of the base stream have got to.
    let mut s = SplitMix64::new(99);
    for i in 0..5 {
        assert_eq!(droplet_seed(99, i), s.state);
        s.next_u64();
    }
}

#[test]
fn a_brush_is_a_disc_of_normalized_shares() {
    let b = brush_of(1);
    let cells: Vec<(i32, i32)> = b.cells.iter().map(|c| (c.dx, c.dy)).collect();
    assert_eq!(cells, [(0, -1), (-1, 0), (0, 0), (1, 0), (0, 1)]);
    let total: f32 = brush_of(3).cells.iter().map(|c| c.share).sum();
    assert!((total - 1.0).abs() < 1e-5);
    assert_eq!(radius(0), 1);
    assert_eq!(radius(1000), 64);
}

#[test]
fn a_droplet_lives_at_least_a_step() {
    assert_eq!(HydraulicErosion::lifetime(0), 1);
    assert_eq!(HydraulicErosion::lifetime(30), 30);
}

#[test]
fn a_masked_out_cell_keeps_its_height_through_the_rain() {
    let input = fractal_terrain(48, 48, 2);
    let half = terrain(48, 48, |x, _| if x < 24 { 0.0 } else { 1.0 });
    let out = hydraulic(&input, Some(&half), 3.0, &world(48)).unwrap();
    assert_ne!(bits(heights(&out[0])), bits(heights(&input)));
    for y in 0..48 {
        for x in 0..24 {
            assert_eq!(at(&out[0], x, y).to_bits(), at(&input, x, y).to_bits());
        }
    }
}

#[test]
fn terrain_passes_through_whatever_the_mask() {
    let input = fractal_terrain(16, 16, 1);
    let odd = terrain(3, 2, |_, _| 0.0);
    let out = hydraulic(&input, Some(&odd), 0.0, &world(16)).unwrap();
    assert_eq!(bits(heights(&out[0])), bits(heights(&input)));
}
