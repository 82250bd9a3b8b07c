//! How octaves are layered, and what the cellular search finds.
use crate::keys::INFINITY_BITS;
use crate::noise::{
    around, hashed_unit, layered, nearest_of, octave_seed_of, ranks, worley_distances, Nearest,
    WORLEY_SALT_Y,
};
use vstd::prelude::*;

verus! {

/// Layering takes one step for each octave, coarsest first: any list of states that starts at
/// `start`, and in which every state follows from the one before by the step of that octave with
/// that octave's seed, ends after `count` steps at the layered state.
pub proof fn law_every_octave_is_one_step<S>(
    seed: u64,
    count: u32,
    start: S,
    step: spec_fn(S, u32, u64) -> S,
    states: Seq<S>,
)
    requires
        states.len() == count + 1,
        states[0] == start,
        forall|k: int|
            0 <= k < count ==> #[trigger] states[k + 1] == step(
                states[k],
                k as u32,
                octave_seed_of(seed, k as u32),
            ),
    ensures
        layered(seed, count, start, step) == states[count as int],
    decreases count,
{
    if count > 0 {
        let k = (count - 1) as u32;
        let rest = states.drop_last();
        assert forall|i: int| 0 <= i < k implies #[trigger] rest[i + 1] == step(
            rest[i],
            i as u32,
            octave_seed_of(seed, i as u32),
        ) by {
            assert(states[i + 1] == rest[i + 1]);
        }
        law_every_octave_is_one_step(seed, k, start, step, rest);
        assert(states[(count - 1) + 1] == step(states[k as int], k, octave_seed_of(seed, k)));
    }
}

/// As many octaves are layered as are asked for: counting the steps gives their number.
pub proof fn law_octaves_are_counted(seed: u64, count: u32)
    ensures
        layered(seed, count, 0int, |n: int, k: u32, s: u64| n + 1) == count,
    decreases count,
{
    if count > 0 {
        law_octaves_are_counted(seed, (count - 1) as u32);
    }
}

/// The octaves come in order, each with its own seed: listing what the steps are handed gives
/// octave 0 with its seed, then octave 1 with its seed, and so on.
pub proof fn law_octaves_come_in_order(seed: u64, count: u32)
    ensures
        layered(
            seed,
            count,
            Seq::<(u32, u64)>::empty(),
            |seen: Seq<(u32, u64)>, k: u32, s: u64| seen.push((k, s)),
        ) == Seq::new(count as nat, |i: int| (i as u32, octave_seed_of(seed, i as u32))),
    decreases count,
{
    let step = |seen: Seq<(u32, u64)>, k: u32, s: u64| seen.push((k, s));
    let all = Seq::new(count as nat, |i: int| (i as u32, octave_seed_of(seed, i as u32)));
    if count > 0 {
        let k = (count - 1) as u32;
        law_octaves_come_in_order(seed, k);
        let before = Seq::new(k as nat, |i: int| (i as u32, octave_seed_of(seed, i as u32)));
        assert(layered(seed, count, Seq::empty(), step) == before.push(
            (k, octave_seed_of(seed, k)),
        ));
        assert(before.push((k, octave_seed_of(seed, k))) =~= all);
    } else {
        assert(all =~= Seq::<(u32, u64)>::empty());
    }
}

/// How far the feature point of a cell is: each cell has one, put by two hashes of its own.
pub open spec fn feature_apart(
    seed: u64,
    apart: spec_fn(i32, i32, u32, u32) -> u32,
    cx: int,
    cy: int,
) -> u32 {
    apart(
        cx as i32,
        cy as i32,
        hashed_unit(seed, cx, cy),
        hashed_unit(seed ^ WORLEY_SALT_Y, cx, cy),
    )
}

/// The cellular search finds the nearest and the second nearest of the feature points of the cell
/// and its eight neighbours. No point of these is nearer than the first; the first is that of the
/// cell it names, one of the nine; none but that cell's is nearer than the second; and the second
/// is that of another of them, or infinitely far.
pub proof fn law_search_finds_the_two_nearest(
    seed: u64,
    ix: int,
    iy: int,
    apart: spec_fn(i32, i32, u32, u32) -> u32,
    r: Nearest,
)
    requires
        i32::MIN < ix < i32::MAX,
        i32::MIN < iy < i32::MAX,
        nearest_of(worley_distances(seed, ix, iy, apart), ix, iy, r),
    ensures
        ix - 1 <= r.cell.0 <= ix + 1,
        iy - 1 <= r.cell.1 <= iy + 1,
        forall|cx: int, cy: int|
            ix - 1 <= cx <= ix + 1 && iy - 1 <= cy <= iy + 1 ==> r.first
                <= #[trigger] feature_apart(seed, apart, cx, cy),
        forall|cx: int, cy: int|
            ix - 1 <= cx <= ix + 1 && iy - 1 <= cy <= iy + 1 && #[trigger] feature_apart(
                seed,
                apart,
                cx,
                cy,
            ) < INFINITY_BITS ==> {
                &&& r.first < INFINITY_BITS
                &&& r.first == feature_apart(
                    seed,
                    apart,
                    r.cell.0 as int,
                    r.cell.1 as int,
                )
                &&& (cx, cy) != (r.cell.0 as int, r.cell.1 as int) ==> r.second <= feature_apart(
                    seed,
                    apart,
                    cx,
                    cy,
                )
            },
        r.second < INFINITY_BITS ==> exists|cx: int, cy: int|
            {
                &&& ix - 1 <= cx <= ix + 1
                &&& iy - 1 <= cy <= iy + 1
                &&& (cx, cy) != (r.cell.0 as int, r.cell.1 as int)
                &&& r.second == #[trigger] feature_apart(seed, apart, cx, cy)
            },
{
    reveal(ranks);
    let d = worley_distances(seed, ix, iy, apart);
    let at = choose|at: Option<int>|
        {
            &&& #[trigger] ranks(d, r.first, r.second, at)
            &&& match at {
                None => r.cell.0 == ix && r.cell.1 == iy,
                Some(b) => r.cell.0 == around(ix, iy, b).0 && r.cell.1 == around(ix, iy, b).1,
            }
        };
    assert forall|cx: int, cy: int| ix - 1 <= cx <= ix + 1 && iy - 1 <= cy <= iy + 1 implies {
        let j = (cy - iy + 1) * 3 + (cx - ix + 1);
        &&& 0 <= j < 9
        &&& around(ix, iy, j) == (cx, cy)
        &&& d[j] == #[trigger] feature_apart(seed, apart, cx, cy)
    } by {
        let j = (cy - iy + 1) * 3 + (cx - ix + 1);
        assert(around(ix, iy, j) == (cx, cy));
    }
    if r.second < INFINITY_BITS {
        let b = at->0;
        let j = choose|j: int| 0 <= j < d.len() && j != b && r.second == #[trigger] d[j];
        let (cx, cy) = around(ix, iy, j);
        assert(ix - 1 <= cx <= ix + 1 && iy - 1 <= cy <= iy + 1);
        assert(r.second == feature_apart(seed, apart, cx, cy));
    }
}

} // verus!
