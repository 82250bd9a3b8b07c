//! Seeded lattice noise: the hash that every lattice point draws from, the octave seeds, and the
//! cellular search.
//!
//! The hash is a fixed formula on integers, so a seed gives the same terrain on every machine.
use crate::functions::{computes3, computes4, total1, total2, total3, total4};
use crate::keys::INFINITY_BITS;
use vstd::arithmetic::div_mod::{lemma_mul_mod_noop_left, lemma_small_mod};
use vstd::prelude::*;

verus! {

/// Spreads the first coordinate over the hash; also the step of the droplet stream.
pub const PRIME_X: u64 = 0x9E37_79B9_7F4A_7C15;

/// Spreads the second coordinate over the hash.
pub const PRIME_Y: u64 = 0xC2B2_AE3D_27D4_EB4F;

/// The first multiplier of the finalizer.
pub const MIX_A: u64 = 0xBF58_476D_1CE4_E5B9;

/// The second multiplier of the finalizer.
pub const MIX_B: u64 = 0x94D0_49BB_1331_11EB;

/// Decorrelates the base noise of the flow generator from its potential.
pub const FLOW_BASE_SALT: u64 = 0x1357_9BDF_0246_8ACE;

/// Decorrelates the second displacement of the warp from the first.
pub const WARP_Y_SALT: u64 = 0xD1B5_4A32_D192_ED03;

/// Decorrelates the second offset of a feature point from the first.
pub const WORLEY_SALT_Y: u64 = 0x2545_F491_4F6C_DD1D;

/// Decorrelates the value of a cell from the offsets of its feature point.
pub const WORLEY_SALT_REGION: u64 = 0x9E37_79B9_7F4A_7C15;

/// The number of gradient directions.
pub const GRADIENTS: u64 = 12;

/// Multiplication modulo 2^64.
pub open spec fn wrapped_mul(a: u64, b: u64) -> u64 {
    ((a as nat * b as nat) % 0x1_0000_0000_0000_0000) as u64
}

/// Addition modulo 2^64.
pub open spec fn wrapped_add(a: u64, b: u64) -> u64 {
    ((a + b) % 0x1_0000_0000_0000_0000) as u64
}

/// A coordinate modulo 2^64, by which negative ones hash too.
pub open spec fn wrapped(i: int) -> u64 {
    (i % 0x1_0000_0000_0000_0000) as u64
}

/// The SplitMix64 finalizer.
pub open spec fn finalized(z: u64) -> u64 {
    let a = wrapped_mul(z ^ (z >> 30u64), MIX_A);
    let b = wrapped_mul(a ^ (a >> 27u64), MIX_B);
    b ^ (b >> 31u64)
}

/// The hash of a lattice point.
pub open spec fn hashed(seed: u64, ix: int, iy: int) -> u64 {
    finalized((seed ^ wrapped_mul(wrapped(ix), PRIME_X)) ^ wrapped_mul(wrapped(iy), PRIME_Y))
}

/// The low 24 bits of the hash of a lattice point: its value, in units of 2^-24.
pub open spec fn hashed_unit(seed: u64, ix: int, iy: int) -> u32 {
    (hashed(seed, ix, iy) % 0x100_0000) as u32
}

/// The SplitMix64 finalizer.
pub fn finalize(z: u64) -> (r: u64)
    ensures
        r == finalized(z),
{
    let a: u64 = multiply(z ^ (z >> 30u64), MIX_A);
    let b: u64 = multiply(a ^ (a >> 27u64), MIX_B);
    b ^ (b >> 31u64)
}

/// Multiplication modulo 2^64.
pub fn multiply(a: u64, b: u64) -> (r: u64)
    ensures
        r == wrapped_mul(a, b),
{
    a.wrapping_mul(b)
}

/// A coordinate modulo 2^64.
fn spread(i: i32) -> (r: u64)
    ensures
        r == wrapped(i as int),
{
    if i >= 0 {
        i as u64
    } else {
        u64::MAX - ((-(i as i64)) as u64 - 1)
    }
}

/// The hash of a lattice point.
pub fn hash_coords(seed: u64, ix: i32, iy: i32) -> (r: u64)
    ensures
        r == hashed(seed, ix as int, iy as int),
{
    let h: u64 = (seed ^ multiply(spread(ix), PRIME_X)) ^ multiply(spread(iy), PRIME_Y);
    finalize(h)
}

/// The value of a lattice point, in units of 2^-24.
pub fn hash_unit(seed: u64, ix: i32, iy: i32) -> (r: u32)
    ensures
        r == hashed_unit(seed, ix as int, iy as int),
        r < 0x100_0000,
{
    (hash_coords(seed, ix, iy) % 0x100_0000) as u32
}

/// Which of the gradient directions a lattice point has.
pub fn gradient(seed: u64, ix: i32, iy: i32) -> (r: usize)
    ensures
        r == hashed(seed, ix as int, iy as int) % GRADIENTS,
        r < GRADIENTS,
{
    (hash_coords(seed, ix, iy) % GRADIENTS) as usize
}

/// The seed of an octave.
pub open spec fn octave_seed_of(seed: u64, octave: u32) -> u64 {
    seed ^ wrapped_mul(PRIME_X, (octave + 1) as u64)
}

/// The seed of an octave.
pub fn octave_seed(seed: u64, octave: u32) -> (r: u64)
    ensures
        r == octave_seed_of(seed, octave),
{
    seed ^ multiply(PRIME_X, octave as u64 + 1)
}

/// The octaves asked for, within bounds.
pub open spec fn octaves_of(requested: int) -> int {
    if requested < 0 {
        0
    } else if requested > 32 {
        32
    } else {
        requested
    }
}

/// The octaves asked for, within bounds.
pub fn octaves(requested: i64) -> (r: u32)
    ensures
        r == octaves_of(requested as int),
{
    if requested < 0 {
        0
    } else if requested > 32 {
        32
    } else {
        requested as u32
    }
}

/// The seed of a node: the world's, moved by the node's own.
pub open spec fn node_seed_of(world: u64, own: i64) -> u64 {
    wrapped_add(world, wrapped(own as int))
}

/// The seed of a node: the world's, moved by the node's own.
pub fn node_seed(world: u64, own: i64) -> (r: u64)
    ensures
        r == node_seed_of(world, own),
{
    let moved: u64 = if own >= 0 {
        own as u64
    } else {
        u64::MAX - ((-(own as i128)) as u64 - 1)
    };
    world.wrapping_add(moved)
}

/// Layers octaves: from `start`, `step` takes the state, the octave and its seed.
pub open spec fn layered<S>(
    seed: u64,
    count: u32,
    start: S,
    step: spec_fn(S, u32, u64) -> S,
) -> S
    decreases count,
{
    if count == 0 {
        start
    } else {
        let k = (count - 1) as u32;
        step(layered(seed, k, start, step), k, octave_seed_of(seed, k))
    }
}

/// Layers octaves, coarsest first.
pub fn layer_octaves<S, F: Fn(S, u32, u64) -> S>(seed: u64, count: u32, start: S, step: &F) -> (r:
    S)
    requires
        total3(*step),
    ensures
        forall|m: spec_fn(S, u32, u64) -> S| #[trigger]
            computes3(*step, m) ==> r == layered(seed, count, start, m),
{
    let ghost first = start;
    let mut state: S = start;
    let mut k: u32 = 0;
    while k < count
        invariant
            total3(*step),
            k <= count,
            forall|m: spec_fn(S, u32, u64) -> S| #[trigger]
                computes3(*step, m) ==> state == layered(seed, k, first, m),
        decreases count - k,
    {
        let s: u64 = octave_seed(seed, k);
        let ghost was = state;
        state = step(state, k, s);
        proof {
            assert forall|m: spec_fn(S, u32, u64) -> S| #[trigger] computes3(
                *step,
                m,
            ) implies state == layered(seed, (k + 1) as u32, first, m) by {
                assert(call_ensures(*step, (was, k, s), state));
            }
        }
        k += 1;
    }
    state
}

/// Which cellular feature a field renders.
#[derive(Clone, Copy, Debug, PartialEq, Eq, Structural)]
pub enum WorleyFeature {
    /// Cones peaking at each feature point.
    Bumps,
    /// The network of cell edges.
    Cracks,
    /// One value per cell.
    Regions,
}

/// Cell `j` of the nine around `(ix, iy)`, row by row.
pub open spec fn around(ix: int, iy: int, j: int) -> (int, int) {
    (ix + j % 3 - 1, iy + j / 3 - 1)
}

/// The squared distances to the feature points of the nine cells around `(ix, iy)`: `apart` of a
/// cell, and of its point's two offsets in units of 2^-24.
pub open spec fn worley_distances(
    seed: u64,
    ix: int,
    iy: int,
    apart: spec_fn(i32, i32, u32, u32) -> u32,
) -> Seq<u32> {
    Seq::new(
        9,
        |j: int|
            {
                let c = around(ix, iy, j);
                apart(
                    c.0 as i32,
                    c.1 as i32,
                    hashed_unit(seed, c.0, c.1),
                    hashed_unit(seed ^ WORLEY_SALT_Y, c.0, c.1),
                )
            },
    )
}

/// The nearest and the second nearest feature point, and the cell of the nearest.
#[derive(Clone, Copy, Debug, PartialEq, Eq)]
pub struct Nearest {
    /// The squared distance to the nearest, as the bits of a float that is not negative.
    pub first: u32,
    /// The squared distance to the second nearest.
    pub second: u32,
    /// The cell of the nearest.
    pub cell: (i32, i32),
}

/// Of the distances `d`, the one at `at` is the least, the earliest of those as small, and `second`
/// is the least of the others. Only what is nearer than infinity counts.
#[verifier::opaque]
pub open spec fn ranks(d: Seq<u32>, first: u32, second: u32, at: Option<int>) -> bool {
    match at {
        None => {
            &&& first == INFINITY_BITS
            &&& second == INFINITY_BITS
            &&& forall|j: int| 0 <= j < d.len() ==> #[trigger] d[j] >= INFINITY_BITS
        },
        Some(b) => {
            &&& 0 <= b < d.len()
            &&& first == d[b]
            &&& first < INFINITY_BITS
            &&& forall|j: int| 0 <= j < b ==> #[trigger] d[j] > first
            &&& forall|j: int| b <= j < d.len() ==> #[trigger] d[j] >= first
            &&& forall|j: int| 0 <= j < d.len() && j != b ==> #[trigger] d[j] >= second
            &&& second <= INFINITY_BITS
            &&& second == INFINITY_BITS || exists|j: int|
                0 <= j < d.len() && j != b && second == #[trigger] d[j]
        },
    }
}

/// Of the feature points at the distances `d`, cell by cell around `(ix, iy)`: `r` names the
/// nearest, and the distance of the next. Where none is nearer than infinity, the cell is the
/// middle one.
pub open spec fn nearest_of(d: Seq<u32>, ix: int, iy: int, r: Nearest) -> bool {
    exists|at: Option<int>|
        {
            &&& #[trigger] ranks(d, r.first, r.second, at)
            &&& match at {
                None => r.cell.0 == ix && r.cell.1 == iy,
                Some(b) => r.cell.0 == around(ix, iy, b).0 && r.cell.1 == around(ix, iy, b).1,
            }
        }
}

/// Searches the nine cells around `(ix, iy)` for the two nearest feature points. Each cell holds
/// one, displaced from its origin by two independent hashes.
pub fn worley<F: Fn(i32, i32, u32, u32) -> u32>(seed: u64, ix: i32, iy: i32, apart: &F) -> (r:
    Nearest)
    requires
        i32::MIN < ix < i32::MAX,
        i32::MIN < iy < i32::MAX,
        total4(*apart),
    ensures
        forall|m: spec_fn(i32, i32, u32, u32) -> u32| #[trigger]
            computes4(*apart, m) ==> nearest_of(
                worley_distances(seed, ix as int, iy as int, m),
                ix as int,
                iy as int,
                r,
            ),
{
    let mut r: Nearest = Nearest {
        first: INFINITY_BITS,
        second: INFINITY_BITS,
        cell: (ix, iy),
    };
    let ghost mut at: Option<int> = None;
    let ghost mut d: Seq<u32> = Seq::empty();
    assert(ranks(d, r.first, r.second, at)) by {
        reveal(ranks);
    }
    let mut j: i32 = 0;
    while j < 9
        invariant
            i32::MIN < ix < i32::MAX,
            i32::MIN < iy < i32::MAX,
            total4(*apart),
            0 <= j <= 9,
            d.len() == j,
            ranks(d, r.first, r.second, at),
            match at {
                None => r.cell.0 == ix && r.cell.1 == iy,
                Some(b) => r.cell.0 == around(ix as int, iy as int, b).0 && r.cell.1 == around(
                    ix as int,
                    iy as int,
                    b,
                ).1,
            },
            forall|m: spec_fn(i32, i32, u32, u32) -> u32| #[trigger]
                computes4(*apart, m) ==> forall|i: int|
                    0 <= i < j ==> #[trigger] d[i] == worley_distances(
                        seed,
                        ix as int,
                        iy as int,
                        m,
                    )[i],
        decreases 9 - j,
    {
        let cx: i32 = ix + (j % 3 - 1);
        let cy: i32 = iy + (j / 3 - 1);
        let ux: u32 = hash_unit(seed, cx, cy);
        let uy: u32 = hash_unit(seed ^ WORLEY_SALT_Y, cx, cy);
        let d2: u32 = apart(cx, cy, ux, uy);
        assert(around(ix as int, iy as int, j as int) == (cx as int, cy as int));
        proof {
            assert forall|m: spec_fn(i32, i32, u32, u32) -> u32| #[trigger] computes4(
                *apart,
                m,
            ) implies d2 == worley_distances(seed, ix as int, iy as int, m)[j as int] by {
                assert(call_ensures(*apart, (cx, cy, ux, uy), d2));
                lemma_distance_at(seed, ix as int, iy as int, m, j as int);
            }
            lemma_ranks_step(d, r.first, r.second, at, d2);
            d = d.push(d2);
        }
        if d2 < r.first {
            r = Nearest { first: d2, second: r.first, cell: (cx, cy) };
            proof {
                at = Some(j as int);
            }
        } else if d2 < r.second {
            r = Nearest { first: r.first, second: d2, cell: r.cell };
        }
        j += 1;
    }
    proof {
        assert forall|m: spec_fn(i32, i32, u32, u32) -> u32| #[trigger] computes4(
            *apart,
            m,
        ) implies nearest_of(
            worley_distances(seed, ix as int, iy as int, m),
            ix as int,
            iy as int,
            r,
        ) by {
            assert(d =~= worley_distances(seed, ix as int, iy as int, m));
            assert(ranks(d, r.first, r.second, at));
        }
    }
    r
}

/// The arithmetic of the cellular features, as executable functions.
pub struct FeatureFns<B, C, R> {
    /// The height for the nearest distance.
    pub bumps: B,
    /// The height for the two nearest distances.
    pub cracks: C,
    /// The height for a cell's value, in units of 2^-24.
    pub regions: R,
}

/// What a feature renders: the nearest distance, the two nearest, or the value of the nearest
/// point's cell.
pub fn worley_height<V, B: Fn(u32) -> V, C: Fn(u32, u32) -> V, R: Fn(u32) -> V>(
    feature: WorleyFeature,
    seed: u64,
    nearest: Nearest,
    f: &FeatureFns<B, C, R>,
) -> (r: V)
    requires
        total1(f.bumps),
        total2(f.cracks),
        total1(f.regions),
    ensures
        match feature {
            WorleyFeature::Bumps => call_ensures(f.bumps, (nearest.first,), r),
            WorleyFeature::Cracks => call_ensures(f.cracks, (nearest.first, nearest.second), r),
            WorleyFeature::Regions => call_ensures(
                f.regions,
                (
                    hashed_unit(
                        seed ^ WORLEY_SALT_REGION,
                        nearest.cell.0 as int,
                        nearest.cell.1 as int,
                    ),
                ),
                r,
            ),
        },
{
    match feature {
        WorleyFeature::Bumps => (f.bumps)(nearest.first),
        WorleyFeature::Cracks => (f.cracks)(nearest.first, nearest.second),
        WorleyFeature::Regions => (f.regions)(
            hash_unit(seed ^ WORLEY_SALT_REGION, nearest.cell.0, nearest.cell.1),
        ),
    }
}

/// The distance to the feature point of one cell.
proof fn lemma_distance_at(
    seed: u64,
    ix: int,
    iy: int,
    apart: spec_fn(i32, i32, u32, u32) -> u32,
    j: int,
)
    requires
        0 <= j < 9,
    ensures
        ({
            let c = around(ix, iy, j);
            worley_distances(seed, ix, iy, apart)[j] == apart(
                c.0 as i32,
                c.1 as i32,
                hashed_unit(seed, c.0, c.1),
                hashed_unit(seed ^ WORLEY_SALT_Y, c.0, c.1),
            )
        }),
{
}

/// One distance more keeps the ranking right.
proof fn lemma_ranks_step(d: Seq<u32>, first: u32, second: u32, at: Option<int>, e: u32)
    requires
        ranks(d, first, second, at),
    ensures
        e < first ==> ranks(d.push(e), e, first, Some(d.len() as int)),
        first <= e < second ==> ranks(d.push(e), first, e, at),
        first <= e && second <= e ==> ranks(d.push(e), first, second, at),
{
    reveal(ranks);
    let n = d.len() as int;
    let f = d.push(e);
    assert(f[n] == e);
    assert forall|j: int| 0 <= j < n implies f[j] == d[j] by {}
    if let Some(b) = at {
        assert(f[b] == first);
        if second != INFINITY_BITS {
            let k = choose|j: int| 0 <= j < d.len() && j != b && second == #[trigger] d[j];
            assert(f[k] == second);
        }
    }
}

/// The nearest feature point is never farther than the second nearest, nor than any other.
pub proof fn law_first_is_nearest(d: Seq<u32>, ix: int, iy: int, r: Nearest, j: int)
    requires
        nearest_of(d, ix, iy, r),
        0 <= j < d.len(),
    ensures
        r.first <= r.second,
        r.first <= d[j],
{
    reveal(ranks);
}

/// Multiplying by the odd step is undone by multiplying by its inverse modulo 2^64.
proof fn lemma_step_has_inverse(z: u64)
    ensures
        (wrapped_mul(PRIME_X, z) * 0xF1DE_83E1_9937_733Dint) % 0x1_0000_0000_0000_0000int == z,
{
    let n = 0x1_0000_0000_0000_0000int;
    let p = PRIME_X as int;
    let v = 0xF1DE_83E1_9937_733Dint;
    assert((0x9E37_79B9_7F4A_7C15int * 0xF1DE_83E1_9937_733Dint) % 0x1_0000_0000_0000_0000int == 1);
    assert((p * v) % n == 1);
    lemma_mul_mod_noop_left(p * z, v, n);
    assert((p * z) * v == (p * v) * z) by (nonlinear_arith);
    lemma_mul_mod_noop_left(p * v, z as int, n);
    lemma_small_mod(z as nat, n as nat);
}

/// Different octaves have different seeds.
pub proof fn law_octaves_differ(seed: u64, a: u32, b: u32)
    requires
        a != b,
    ensures
        octave_seed_of(seed, a) != octave_seed_of(seed, b),
{
    let x = (a + 1) as u64;
    let y = (b + 1) as u64;
    lemma_step_has_inverse(x);
    lemma_step_has_inverse(y);
    let p = wrapped_mul(PRIME_X, x);
    let q = wrapped_mul(PRIME_X, y);
    assert((seed ^ p) == (seed ^ q) ==> p == q) by (bit_vector);
}

/// Multiplying by a number with an inverse modulo 2^64 tells any two factors apart.
proof fn lemma_multiplying_is_one_to_one(x: u64, y: u64, by: u64, inverse: int)
    requires
        (by as int * inverse) % 0x1_0000_0000_0000_0000int == 1,
        wrapped_mul(x, by) == wrapped_mul(y, by),
    ensures
        x == y,
{
    let n = 0x1_0000_0000_0000_0000int;
    let b = by as int;
    lemma_mul_mod_noop_left(x * b, inverse, n);
    lemma_mul_mod_noop_left(y * b, inverse, n);
    assert((x * b) * inverse == (b * inverse) * x) by (nonlinear_arith);
    assert((y * b) * inverse == (b * inverse) * y) by (nonlinear_arith);
    lemma_mul_mod_noop_left(b * inverse, x as int, n);
    lemma_mul_mod_noop_left(b * inverse, y as int, n);
    lemma_small_mod(x as nat, n as nat);
    lemma_small_mod(y as nat, n as nat);
}

/// The finalizer tells any two numbers apart.
proof fn lemma_finalizing_is_one_to_one(x: u64, y: u64)
    requires
        finalized(x) == finalized(y),
    ensures
        x == y,
{
    let (p, q) = (x ^ (x >> 30u64), y ^ (y >> 30u64));
    let (a, c) = (wrapped_mul(p, MIX_A), wrapped_mul(q, MIX_A));
    let (d, e) = (a ^ (a >> 27u64), c ^ (c >> 27u64));
    let (g, h) = (wrapped_mul(d, MIX_B), wrapped_mul(e, MIX_B));
    assert(g == h) by (bit_vector)
        requires
            g ^ (g >> 31u64) == h ^ (h >> 31u64),
    ;
    assert((0x94D0_49BB_1331_11EBint * 0x3196_42B2_D24D_8EC3int) % 0x1_0000_0000_0000_0000int == 1);
    lemma_multiplying_is_one_to_one(d, e, MIX_B, 0x3196_42B2_D24D_8EC3int);
    assert(a == c) by (bit_vector)
        requires
            a ^ (a >> 27u64) == c ^ (c >> 27u64),
    ;
    assert((0xBF58_476D_1CE4_E5B9int * 0x96DE_1B17_3F11_9089int) % 0x1_0000_0000_0000_0000int == 1);
    lemma_multiplying_is_one_to_one(p, q, MIX_A, 0x96DE_1B17_3F11_9089int);
    assert(x == y) by (bit_vector)
        requires
            x ^ (x >> 30u64) == y ^ (y >> 30u64),
    ;
}

/// At every lattice point different seeds give different hashes: the hash is a bijection of the
/// seed.
pub proof fn law_seeds_hash_apart(s: u64, t: u64, ix: int, iy: int)
    requires
        s != t,
    ensures
        hashed(s, ix, iy) != hashed(t, ix, iy),
{
    let x = wrapped_mul(wrapped(ix), PRIME_X);
    let y = wrapped_mul(wrapped(iy), PRIME_Y);
    let (a, b) = ((s ^ x) ^ y, (t ^ x) ^ y);
    if hashed(s, ix, iy) == hashed(t, ix, iy) {
        lemma_finalizing_is_one_to_one(a, b);
        assert(s == t) by (bit_vector)
            requires
                (s ^ x) ^ y == (t ^ x) ^ y,
        ;
    }
}

} // verus!
