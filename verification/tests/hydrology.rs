#![allow(dead_code)]
use ymir_nodes::grid::Grid;
use ymir_nodes::hydrology::area::{drainage_area_mfd, elevation_order};
use ymir_nodes::hydrology::drainage::{solve_drainage, Drainage, DrainageFns};
use ymir_nodes::hydrology::eikonal::eikonal_flats;
use ymir_nodes::hydrology::fill::fill_depressions;
use ymir_nodes::hydrology::flats::NO_LABEL;
use ymir_nodes::hydrology::incise::{incise, largest_area};
use ymir_nodes::hydrology::normalize::{log_normalize, log_normalize_span, span};
use ymir_nodes::hydrology::resolve::resolve_flats;
use ymir_nodes::hydrology::routing::receivers;
use ymir_nodes::hydrology::stack::build_stack;
use ymir_nodes::keys::{key_bits, order_key};

/// The order key of a height.
fn key(v: f32) -> i32 {
    order_key((v + 0.0).to_bits())
}

/// The height of an order key.
fn height_of(k: i32) -> f32 {
    f32::from_bits(key_bits(k))
}

/// How far apart two neighbours are.
fn apart(diagonal: bool) -> f32 {
    if diagonal {
        std::f32::consts::SQRT_2
    } else {
        1.0
    }
}

/// The distance update of the upwind scheme, on the bits of the two axis minima.
fn upwind(u: u32, v: u32) -> u32 {
    let (u, v) = (f32::from_bits(u), f32::from_bits(v));
    let (m1, m2) = (u.min(v), u.max(v));
    let d = m2 - m1;
    let t = if m1.is_infinite() {
        f32::INFINITY
    } else if m2.is_infinite() || d >= 1.0 {
        m1 + 1.0
    } else {
        (m1 + m2 + (2.0 - d * d).sqrt()) / 2.0
    };
    t.to_bits()
}

/// The distance across a diagonal.
fn bridge(d: u32) -> u32 {
    (f32::from_bits(d) + std::f32::consts::SQRT_2).to_bits()
}

/// A flat cell's elevation with its micro-relief.
fn relief(level: i32, walls: Option<(u32, u32)>, toward: u32) -> i32 {
    let walls = match walls {
        Some((peak, away)) => f32::from_bits(peak) - f32::from_bits(away),
        None => 0.0,
    };
    let relief = walls + 2.0 * f32::from_bits(toward);
    if relief == 0.0 {
        return level;
    }
    let e = height_of(level);
    key(e + relief * (f32::EPSILON * e.abs().max(1.0)))
}

/// The slope of a descent.
fn slope(here: i32, there: i32, diagonal: bool) -> i32 {
    key((height_of(here) - height_of(there)) / apart(diagonal))
}

fn plus(a: u32, b: u32) -> u32 {
    (f32::from_bits(a) + f32::from_bits(b)).to_bits()
}

fn part(area: u32, total: u32, weight: u32) -> u32 {
    (f32::from_bits(area) / f32::from_bits(total) * f32::from_bits(weight)).to_bits()
}

/// The weight of a descent, sharpened by the concentration.
fn weight(here: i32, there: i32, diagonal: bool, concentration: f32) -> u32 {
    let drop = height_of(here) - height_of(there);
    if drop > 0.0 {
        (drop / apart(diagonal)).powf(concentration).to_bits()
    } else {
        0
    }
}

/// The level a bed may be filled to.
fn fill_cap(bed: i32, most: f32) -> i32 {
    key(height_of(bed) + most)
}

const NEIGHBORS: [(i32, i32); 8] =
    [(-1, 0), (1, 0), (0, -1), (0, 1), (-1, -1), (1, -1), (-1, 1), (1, 1)];

fn fill(bed: &[f32], grid: &Grid, most: f32) -> Vec<f32> {
    let bed: Vec<i32> = bed.iter().map(|&v| key(v)).collect();
    let cap: Vec<i32> = bed.iter().map(|&k| fill_cap(k, most)).collect();
    fill_depressions(&bed, &cap, grid).iter().map(|&k| height_of(k)).collect()
}

fn resolve(filled: &[f32], grid: &Grid) -> Vec<f32> {
    let filled: Vec<i32> = filled.iter().map(|&v| key(v)).collect();
    resolve_flats(&filled, grid, &upwind, &bridge, &relief).iter().map(|&k| height_of(k)).collect()
}

/// A ramp high at the top (y = 0) and low at the bottom, so flow runs downhill.
fn ramp(grid: &Grid) -> Vec<f32> {
    (0..grid.width * grid.height)
        .map(|i| 1.0 - (i / grid.width) as f32 / (grid.height - 1) as f32)
        .collect()
}

#[test]
fn fill_depressions_fills_a_pit_to_its_spill_level() {
    let (w, h) = (5, 5);
    let mut bed = vec![1.0_f32; w * h];
    let pit = 2 * w + 2;
    bed[pit] = 0.0;
    bed[w + 2] = 0.2;
    bed[2] = 0.2;
    let filled = fill(&bed, &Grid { width: w, height: h }, 1.0);
    assert!(
        filled[pit] > 0.1 && filled[pit] < 0.3,
        "pit should fill to its spill level, got {}",
        filled[pit]
    );
    assert_eq!(filled[0], 1.0, "the plateau is untouched");
}

#[test]
fn a_capped_fill_leaves_a_deep_pit_open() {
    let (w, h) = (5, 5);
    let mut bed = vec![1.0_f32; w * h];
    bed[2 * w + 2] = 0.0;
    let grid = Grid { width: w, height: h };
    assert_eq!(fill(&bed, &grid, 0.25)[2 * w + 2], 0.25);
    assert_eq!(fill(&bed, &grid, f32::INFINITY)[2 * w + 2], 1.0);
}

#[test]
fn drainage_area_accumulates_downhill() {
    let grid = Grid { width: 8, height: 8 };
    let filled: Vec<i32> = fill(&ramp(&grid), &grid, 1.0).iter().map(|&v| key(v)).collect();
    let weigh = |a: i32, b: i32, d: bool| weight(a, b, d, 1.5);
    let area = drainage_area_mfd(&filled, &grid, 1.0_f32.to_bits(), &weigh, &plus, &part);
    let area: Vec<f32> = area.iter().map(|&b| f32::from_bits(b)).collect();
    let top = area[grid.width + 4]; // row y = 1
    let bottom = area[(grid.height - 2) * grid.width + 4]; // row y = 6
    assert!(
        bottom > top,
        "drainage should accumulate downhill: top {top}, bottom {bottom}"
    );
}

#[test]
fn drainage_area_hands_everything_on() {
    // On a one-row ramp every cell drains to the next, so the last holds the whole area.
    let grid = Grid { width: 4, height: 1 };
    let filled: Vec<i32> = [3.0_f32, 2.0, 1.0, 0.0].iter().map(|&v| key(v)).collect();
    let weigh = |a: i32, b: i32, d: bool| weight(a, b, d, 1.5);
    let area = drainage_area_mfd(&filled, &grid, 1.0_f32.to_bits(), &weigh, &plus, &part);
    let area: Vec<f32> = area.iter().map(|&b| f32::from_bits(b)).collect();
    assert_eq!(area, [1.0, 2.0, 3.0, 4.0]);
}

#[test]
fn elevation_order_is_highest_first_and_stable() {
    assert_eq!(elevation_order(&[1, 5, 5, -2, 7]), [4, 1, 2, 0, 3]);
}

#[test]
fn build_stack_visits_every_cell_once() {
    let grid = Grid { width: 6, height: 6 };
    let filled: Vec<i32> = fill(&ramp(&grid), &grid, 1.0).iter().map(|&v| key(v)).collect();
    let stack = build_stack(&receivers(&filled, &grid, &slope).to);
    assert_eq!(stack.len(), grid.width * grid.height);
    let mut seen = stack.clone();
    seen.sort_unstable();
    seen.dedup();
    assert_eq!(
        seen.len(),
        grid.width * grid.height,
        "the stack is a permutation of every cell"
    );
}

#[test]
fn build_stack_puts_receivers_before_donors() {
    // 0 <- 1 <- 2, and 4 <- 3.
    assert_eq!(build_stack(&[0, 0, 1, 4, 4]), [0, 1, 2, 4, 3]);
}

#[test]
fn receivers_take_the_steepest_descent() {
    let grid = Grid { width: 3, height: 3 };
    let z: Vec<i32> = [9.0_f32, 9.0, 9.0, 9.0, 5.0, 3.0, 9.0, 9.0, 2.0].iter().map(|&v| key(v)).collect();
    let r = receivers(&z, &grid, &slope);
    // The diagonal drop of 3 over sqrt 2 is gentler than the straight drop of 2... by a hair not:
    // 3 / 1.414 = 2.12 is steeper.
    assert_eq!(r.to[4], 8);
    assert!(r.diagonal[4]);
    assert_eq!(r.to[0], 0, "the boundary drains off the grid");
}

/// A square flat basin: 1.0 walls around a 0.5 interior, with a single lower outlet at the
/// bottom-centre, on the `x = 3` axis.
fn flat_basin() -> (Vec<f32>, Grid) {
    let (w, h) = (7, 7);
    let mut z = vec![0.5_f32; w * h];
    for y in 0..h {
        for x in 0..w {
            if x == 0 || y == 0 || x == w - 1 || y == h - 1 {
                z[y * w + x] = 1.0;
            }
        }
    }
    z[6 * w + 3] = 0.0; // outlet in the bottom border, on the x = 3 axis
    (z, Grid { width: w, height: h })
}

#[test]
fn resolve_flats_is_deterministic() {
    let (z, grid) = flat_basin();
    assert_eq!(resolve(&z, &grid), resolve(&z, &grid));
}

/// Whether a cell has a strictly lower neighbour.
fn drains(r: &[f32], grid: &Grid, x: usize, y: usize) -> bool {
    let (w, h) = (grid.width as i32, grid.height as i32);
    let here = r[y * grid.width + x];
    NEIGHBORS.iter().any(|&(dx, dy)| {
        let (nx, ny) = (x as i32 + dx, y as i32 + dy);
        nx >= 0 && ny >= 0 && nx < w && ny < h && r[(ny * w + nx) as usize] < here
    })
}

#[test]
fn resolve_flats_drains_every_flat_cell_toward_the_outlet() {
    let (z, grid) = flat_basin();
    let (w, h) = (grid.width, grid.height);
    let r = resolve(&z, &grid);
    for y in 1..h - 1 {
        for x in 1..w - 1 {
            assert!(drains(&r, &grid, x, y), "flat cell ({x},{y}) has no downhill neighbour");
        }
    }
    let top = r[w + 3]; // (3, 1)
    let near_outlet = r[5 * w + 3]; // (3, 5)
    assert!(
        top > near_outlet,
        "flat should descend toward the outlet: top {top}, near-outlet {near_outlet}"
    );
}

#[test]
fn resolve_flats_is_symmetric_about_the_outlet_axis() {
    let (z, grid) = flat_basin();
    let (w, h) = (grid.width, grid.height);
    let r = resolve(&z, &grid);
    for y in 1..h - 1 {
        for x in 1..3 {
            let left = r[y * w + x];
            let right = r[y * w + (6 - x)];
            assert_eq!(left, right, "asymmetry at row {y}, columns {x} and {}", 6 - x);
        }
    }
}

#[test]
fn eikonal_distance_is_isotropic() {
    let (w, h) = (81usize, 81usize);
    let (cx, cy) = (40i32, 40i32);
    let radius = 36.0f32;
    let grid = Grid { width: w, height: h };
    let n = w * h;
    let mut domain = vec![false; n];
    let mut label = vec![NO_LABEL; n];
    for y in 0..h {
        for x in 0..w {
            let r = (((x as i32 - cx).pow(2) + (y as i32 - cy).pow(2)) as f32).sqrt();
            if r <= radius {
                domain[y * w + x] = true;
                label[y * w + x] = 0;
            }
        }
    }
    let mut source = vec![false; n];
    source[cy as usize * w + cx as usize] = true;
    let t = eikonal_flats(&source, &domain, &label, &grid, &upwind, &bridge);
    let rel_err = |dx: i32, dy: i32| {
        let c = (cy + dy) as usize * w + (cx + dx) as usize;
        let euclid = (((dx * dx + dy * dy) as f32).sqrt()).max(1e-6);
        (f32::from_bits(t[c]) - euclid).abs() / euclid
    };
    let axis = rel_err(30, 0);
    let diag = rel_err(21, 21);
    let half = rel_err(28, 12);

    assert!(axis < 0.02, "axis error {axis}");
    assert!(diag < 0.05, "diagonal error {diag}");
    assert!(half < 0.04, "half-diagonal error {half}");
    assert!(
        half <= diag + 0.01,
        "half-diagonal should not spike above the diagonal (crease): half {half}, diag {diag}"
    );
}

#[test]
fn resolve_flats_bridges_diagonal_pinches() {
    let (w, h) = (9usize, 9usize);
    let idx = |x: usize, y: usize| y * w + x;
    let mut z = vec![1.0_f32; w * h]; // walls everywhere
    for y in 1..=3 {
        for x in 1..=3 {
            z[idx(x, y)] = 0.5; // block A
        }
    }
    z[idx(4, 4)] = 0.5; // the diagonal bridge; its orthogonal neighbours are all walls
    for y in 5..=7 {
        for x in 5..=7 {
            z[idx(x, y)] = 0.5; // block B, reachable from A only across the pinch
        }
    }
    z[idx(2, 4)] = 0.0; // an outlet just below block A
    let grid = Grid { width: w, height: h };
    let r = resolve(&z, &grid);
    for y in 0..h {
        for x in 0..w {
            if (z[idx(x, y)] - 0.5).abs() > 1e-6 {
                continue; // only the flat cells
            }
            assert!(
                drains(&r, &grid, x, y),
                "flat cell ({x},{y}) beyond a diagonal pinch does not drain"
            );
        }
    }
}

#[test]
fn a_flat_without_an_outlet_keeps_its_elevation() {
    // A closed pan: walls all round, nothing lower.
    let grid = Grid { width: 5, height: 5 };
    let mut z = vec![1.0_f32; 25];
    for y in 1..4 {
        for x in 1..4 {
            z[y * 5 + x] = 0.5;
        }
    }
    let r = resolve(&z, &grid);
    for y in 1..4 {
        for x in 1..4 {
            assert_eq!(r[y * 5 + x], 0.5);
        }
    }
}

fn solve(bed: &[f32], grid: &Grid, most: f32) -> Drainage {
    let bed: Vec<i32> = bed.iter().map(|&v| key(v)).collect();
    solve_drainage(
        &bed,
        grid,
        1.0_f32.to_bits(),
        &DrainageFns {
            cap: |k: i32| fill_cap(k, most),
            upwind,
            bridge,
            relief,
            slope,
            weight: |a: i32, b: i32, d: bool| weight(a, b, d, 1.5),
            plus,
            part,
        },
    )
}

#[test]
fn a_closed_basin_does_not_drain_off() {
    let grid = Grid { width: 9, height: 9 };
    let mut bed = ramp(&grid);
    bed[4 * 9 + 4] = -0.5;
    let d = solve(&bed, &grid, 0.05);
    assert!(!d.drains[4 * 9 + 4], "a deep pit collects its water");
    assert!(d.drains[1], "the boundary drains off");
    assert_eq!(d.stack.len(), 81);
    let filled = solve(&bed, &grid, 2.0);
    assert!(filled.drains[4 * 9 + 4], "a filled pit spills over");
}

#[test]
fn incision_never_raises_and_spares_closed_basins() {
    let grid = Grid { width: 9, height: 9 };
    let mut bed = ramp(&grid);
    bed[4 * 9 + 4] = -0.5;
    let d = solve(&bed, &grid, 0.05);
    let mut z: Vec<i32> = bed.iter().map(|&v| key(v)).collect();
    let before = z.clone();
    let lowered = |(zc, zr): (i32, i32), (area, top): (u32, u32), diagonal: bool| {
        let norm = (f32::from_bits(area) / f32::from_bits(top)).clamp(0.0, 1.0);
        let f = 0.2 * norm.powf(0.5) / apart(diagonal);
        key((height_of(zc) + f * height_of(zr)) / (1.0 + f))
    };
    incise(&mut z, &d, &grid, 1e-12_f32.to_bits(), &lowered);
    assert_eq!(z[4 * 9 + 4], before[4 * 9 + 4]);
    assert!(z.iter().zip(&before).all(|(a, b)| a <= b));
    assert!(z != before, "the ramp is cut");
}

#[test]
fn normalization_spans_the_accumulation() {
    let acc: Vec<u32> = [4.0_f32, 1.0, 2.0].iter().map(|v| v.to_bits()).collect();
    assert_eq!(span(&acc), (1.0_f32.to_bits(), 4.0_f32.to_bits()));
    assert_eq!(largest_area(&acc, 0), 4.0_f32.to_bits());
    let stretched = log_normalize_span(&acc, &|a: u32, (lo, hi): (u32, u32)| {
        let (a, lo, hi) = (f32::from_bits(a), f32::from_bits(lo), f32::from_bits(hi));
        (a - lo) / (hi - lo)
    });
    assert_eq!(stretched, [1.0, 0.0, 1.0 / 3.0]);
    let against = log_normalize(&acc, 4.0_f32.to_bits(), &|a: u32, top: u32| {
        f32::from_bits(a) / f32::from_bits(top)
    });
    assert_eq!(against, [1.0, 0.25, 0.5]);
}

#[test]
fn order_keys_follow_the_order_of_heights() {
    let heights = [-2.5_f32, -1.0, -0.0, 0.0, 1e-30, 0.5, 1.0, 3e30];
    for pair in heights.windows(2) {
        assert!(key(pair[0]) <= key(pair[1]), "{} before {}", pair[0], pair[1]);
    }
    for v in [-2.5_f32, 0.0, 0.75] {
        assert_eq!(height_of(key(v)), v);
    }
}

#[test]
fn the_bottoms_hold_all_area() {
    // A ridge drains to both ends, which together hold the areas of all five cells.
    let grid = Grid { width: 5, height: 1 };
    let filled: Vec<i32> = [1.0_f32, 2.0, 3.0, 2.0, 1.0].iter().map(|&v| key(v)).collect();
    let weigh = |a: i32, b: i32, d: bool| weight(a, b, d, 1.0);
    let area = drainage_area_mfd(&filled, &grid, 1.0_f32.to_bits(), &weigh, &plus, &part);
    let area: Vec<f32> = area.iter().map(|&b| f32::from_bits(b)).collect();
    assert_eq!(area, [2.5, 1.5, 1.0, 1.5, 2.5]);
    assert_eq!(area[0] + area[4], 5.0);
}

#[test]
fn incision_stops_at_the_receiver() {
    let grid = Grid { width: 9, height: 9 };
    let bed = ramp(&grid);
    let d = solve(&bed, &grid, 0.05);
    let mut z: Vec<i32> = bed.iter().map(|&v| key(v)).collect();
    let before = z.clone();
    // Even a step that cuts all the way down leaves a cell at its receiver's height.
    let lowered = |(_, below): (i32, i32), _: (u32, u32), _: bool| below;
    incise(&mut z, &d, &grid, 0, &lowered);
    assert!((0..81).all(|c| z[c] == before[c] || z[c] >= z[d.receivers.to[c]]));
    assert_eq!(z.iter().min(), before.iter().min());
}

#[test]
fn distances_fall_toward_their_sources() {
    // One source in a corner of a square flat: every other cell has a nearer neighbour.
    let n = 6;
    let grid = Grid { width: n, height: n };
    let mut source = vec![false; n * n];
    source[0] = true;
    let t = eikonal_flats(&source, &vec![true; n * n], &vec![0; n * n], &grid, &upwind, &bridge);
    for c in 1..n * n {
        let (x, y) = (c % n, c / n);
        let left = x > 0 && t[c - 1] < t[c];
        let above = y > 0 && t[c - n] < t[c];
        assert!(left || above, "cell {c}");
    }
}
