#![allow(dead_code)]
use ymir_nodes::water_sim::{simulate_flow, Sim, WaterFns};
use ymir_nodes::grid::Grid;

type Four = (f32, f32, f32, f32);

const DT: f32 = 0.02;
const GRAVITY: f32 = 9.81;

fn water_fns(
    rain: f32,
    evaporation: f32,
) -> WaterFns<
    f32,
    impl Fn(f32) -> f32,
    fn(f32, f32) -> f32,
    fn(f32, f32) -> f32,
    fn(f32, f32, f32) -> f32,
    fn(Four, f32) -> Four,
    impl Fn(f32, Four, Four) -> f32,
    fn(f32, f32) -> f32,
> {
    fn add2(a: f32, b: f32) -> f32 {
        a + b
    }
    fn mirror(here: f32, back: f32) -> f32 {
        2.0 * here - back
    }
    fn pipe(last: f32, here: f32, there: f32) -> f32 {
        (last + DT * GRAVITY * (here - there)).max(0.0)
    }
    fn limit(f: Four, depth: f32) -> Four {
        let sum = f.0 + f.1 + f.2 + f.3;
        if sum > 0.0 {
            let k = (depth / (sum * DT)).min(1.0);
            (f.0 * k, f.1 * k, f.2 * k, f.3 * k)
        } else {
            f
        }
    }
    WaterFns {
        zero: 0.0,
        rain: move |d: f32| d + rain,
        level: add2 as fn(f32, f32) -> f32,
        mirror: mirror as fn(f32, f32) -> f32,
        pipe: pipe as fn(f32, f32, f32) -> f32,
        limit: limit as fn(Four, f32) -> Four,
        settle: move |depth: f32, i: Four, o: Four| {
            let inflow = i.0 + i.1 + i.2 + i.3;
            let outflow = o.0 + o.1 + o.2 + o.3;
            ((depth + DT * (inflow - outflow)) * (1.0 - evaporation)).max(0.0)
        },
        tally: add2 as fn(f32, f32) -> f32,
    }
}

/// A ramp high at the top (y = 0), low at the bottom, so water runs downhill.
fn ramp(grid: &Grid) -> Vec<f32> {
    (0..grid.width * grid.height)
        .map(|i| 1.0 - (i / grid.width) as f32 / (grid.height - 1) as f32)
        .collect()
}

/// A flat plateau with a deep square pit in the middle, so water pools in the pit.
fn basin(grid: &Grid) -> Vec<f32> {
    let (w, h) = (grid.width, grid.height);
    let mut bed = vec![0.5_f32; w * h];
    for y in h * 3 / 8..h * 5 / 8 {
        for x in w * 3 / 8..w * 5 / 8 {
            bed[y * w + x] = 0.0;
        }
    }
    bed
}

fn total_water(sim: &Sim<f32>) -> f64 {
    sim.depth.iter().map(|&d| f64::from(d)).sum()
}

/// A simulation with a slug of water in the middle of a twenty-cell square.
fn slug(grid: &Grid) -> Sim<f32> {
    let mut sim = Sim::new(grid, 0.0);
    for y in 8..12 {
        for x in 8..12 {
            sim.depth[y * grid.width + x] = 1.0;
        }
    }
    sim
}

#[test]
fn is_deterministic_across_runs() {
    let grid = Grid { width: 24, height: 24 };
    let bed = ramp(&grid);
    let f = water_fns(0.01, 0.05);
    let a = simulate_flow(&bed, &grid, 60, &f, &|| false).unwrap();
    let b = simulate_flow(&bed, &grid, 60, &f, &|| false).unwrap();
    assert_eq!(a, b);
}

#[test]
fn a_flat_basin_conserves_water_without_rain_or_evaporation() {
    let grid = Grid { width: 20, height: 20 };
    let bed = vec![0.5_f32; grid.width * grid.height];
    let f = water_fns(0.0, 0.0);
    let mut sim = slug(&grid);
    let before = total_water(&sim);
    for _ in 0..80 {
        sim.step(&bed, &grid, &f);
    }
    let after = total_water(&sim);
    assert!(
        (after - before).abs() / before < 1e-4,
        "water not conserved: {before} -> {after}",
    );
}

#[test]
fn open_boundary_drains_water_off_a_slope() {
    let grid = Grid { width: 20, height: 20 };
    let bed = ramp(&grid);
    let f = water_fns(0.0, 0.0);
    let mut sim = slug(&grid);
    let before = total_water(&sim);
    for _ in 0..300 {
        sim.step(&bed, &grid, &f);
    }
    assert!(
        total_water(&sim) < before * 0.5,
        "the open low edge should drain the water off the slope",
    );
}

#[test]
fn water_pools_in_a_basin() {
    let grid = Grid { width: 32, height: 32 };
    let bed = basin(&grid);
    let acc = simulate_flow(&bed, &grid, 300, &water_fns(0.01, 0.02), &|| false).unwrap();
    let (w, mid) = (grid.width, grid.width / 2);
    let pit = acc[mid * w + mid];
    let flat = acc[2 * w + 2];
    assert!(
        pit > flat * 1.5,
        "the pit ({pit}) should pool far more water than the flat ({flat})",
    );
}

#[test]
fn cancellation_stops_the_run() {
    let grid = Grid { width: 8, height: 8 };
    let bed = ramp(&grid);
    assert!(simulate_flow(&bed, &grid, 1000, &water_fns(0.01, 0.02), &|| true).is_none());
}

#[test]
fn tiny_grid_does_not_panic() {
    let grid = Grid { width: 1, height: 1 };
    let bed = vec![0.5_f32];
    let acc = simulate_flow(&bed, &grid, 10, &water_fns(0.01, 0.02), &|| false).unwrap();
    assert_eq!(acc.len(), 1);
}

#[test]
fn one_step_moves_water_to_the_lower_side() {
    // Two cells, water on the left: what leaves the left arrives at the right.
    let grid = Grid { width: 2, height: 1 };
    let bed = vec![0.0_f32, 0.0];
    let mut sim = Sim::new(&grid, 0.0);
    sim.depth[0] = 1.0;
    sim.step(&bed, &grid, &water_fns(0.0, 0.0));
    let sent = sim.flux[0].1;
    assert_eq!(sent, DT * GRAVITY);
    assert_eq!(sim.depth, [1.0 - DT * sent, DT * sent]);
    assert_eq!(sim.tally, sim.depth);
}

#[test]
fn a_flat_bed_loses_only_what_evaporates() {
    let grid = Grid { width: 3, height: 2 };
    let bed = vec![1.0; 6];
    let f = water_fns(0.25, 0.5);
    let mut sim = Sim::new(&grid, 0.0_f32);
    sim.step(&bed, &grid, &f);
    assert_eq!(sim.depth, vec![0.125; 6]);
    assert_eq!(sim.tally, vec![0.125; 6]);
    sim.step(&bed, &grid, &f);
    assert_eq!(sim.depth, vec![0.1875; 6]);
    assert_eq!(sim.tally, vec![0.3125; 6]);
    assert_eq!(total_water(&sim), (0.125 * 6.0 + 0.25 * 6.0) * 0.5);
}
