//! Thermal relaxation on a device: which dispatches run, over which of two height grids.
//!
//! Two height grids take turns. A pass reads one and writes the other, in two phases: every cell's
//! shed amount, then every cell's net movement. The device runs the dispatches in order.
use crate::grid::Grid;
use crate::talus::{relaxed, relaxed_once, TalusMath};
use vstd::prelude::*;

verus! {

/// One of the two height grids: the source is uploaded to `A`.
#[derive(Clone, Copy, Debug, PartialEq, Eq, Structural)]
pub enum HeightGrid {
    A,
    B,
}

/// A phase of a pass.
#[derive(Clone, Copy, Debug, PartialEq, Eq, Structural)]
pub enum Phase {
    /// Every cell's shed amount and total excess, into scratch.
    Shed,
    /// Every cell's new height, from the scratch and the heights read.
    Gather,
}

/// One dispatch over the whole field: its phase, and the grids it reads and writes.
#[derive(Clone, Copy, Debug, PartialEq, Eq, Structural)]
pub struct Dispatch {
    pub phase: Phase,
    pub reads: HeightGrid,
    pub writes: HeightGrid,
}

/// The dispatches of a run, and the grid that holds its result.
#[derive(Debug)]
pub struct Schedule {
    pub dispatches: Vec<Dispatch>,
    pub result: HeightGrid,
}

/// The grid that holds the heights after `passes` passes.
pub open spec fn holds_after(passes: int) -> HeightGrid {
    if passes % 2 == 0 {
        HeightGrid::A
    } else {
        HeightGrid::B
    }
}

/// Dispatch `j` of a run: pass `j / 2` reads what holds the heights before it and writes the other
/// grid, shedding first and gathering then.
pub open spec fn dispatch(j: int) -> Dispatch {
    Dispatch {
        phase: if j % 2 == 0 {
            Phase::Shed
        } else {
            Phase::Gather
        },
        reads: holds_after(j / 2),
        writes: holds_after(j / 2 + 1),
    }
}

/// The schedule of `iterations` passes over `count` cells, or `None` where there is nothing to do:
/// no cells, or no passes.
pub fn schedule(count: usize, iterations: usize) -> (r: Option<Schedule>)
    requires
        iterations <= usize::MAX / 2,
    ensures
        r is None <==> count == 0 || iterations == 0,
        r matches Some(s) ==> {
            &&& s.dispatches@ == Seq::new(2 * iterations as nat, |j: int| dispatch(j))
            &&& s.result == holds_after(iterations as int)
        },
{
    if count == 0 || iterations == 0 {
        return None;
    }
    let mut dispatches: Vec<Dispatch> = Vec::new();
    let mut i: usize = 0;
    while i < iterations
        invariant
            i <= iterations,
            iterations <= usize::MAX / 2,
            dispatches@.len() == 2 * i,
            forall|j: int| 0 <= j < 2 * i ==> #[trigger] dispatches@[j] == dispatch(j),
        decreases iterations - i,
    {
        let (reads, writes): (HeightGrid, HeightGrid) = if i % 2 == 0 {
            (HeightGrid::A, HeightGrid::B)
        } else {
            (HeightGrid::B, HeightGrid::A)
        };
        dispatches.push(Dispatch { phase: Phase::Shed, reads, writes });
        dispatches.push(Dispatch { phase: Phase::Gather, reads, writes });
        i += 1;
    }
    assert(dispatches@ =~= Seq::new(2 * iterations as nat, |j: int| dispatch(j)));
    let result: HeightGrid = if iterations % 2 == 1 {
        HeightGrid::B
    } else {
        HeightGrid::A
    };
    Some(Schedule { dispatches, result })
}

/// The two height grids and the scratch: the heights the last shed phase read.
#[verifier::reject_recursive_types(H)]
pub ghost struct Device<H> {
    pub a: Seq<H>,
    pub b: Seq<H>,
    pub shed_from: Seq<H>,
}

impl<H> Device<H> {
    /// What a grid holds.
    pub open spec fn holds(self, g: HeightGrid) -> Seq<H> {
        match g {
            HeightGrid::A => self.a,
            HeightGrid::B => self.b,
        }
    }
}

/// A device that computes what it is told: a shed phase fills the scratch from the heights it
/// reads, and a gather phase writes those heights relaxed by one pass. A gather phase whose
/// scratch is of other heights writes nothing that is known.
pub open spec fn runs<H, A>(
    m: TalusMath<H, A>,
    grid: Grid,
    d: Dispatch,
    before: Device<H>,
    after: Device<H>,
) -> bool {
    match d.phase {
        Phase::Shed => {
            &&& after.a == before.a
            &&& after.b == before.b
            &&& after.shed_from == before.holds(d.reads)
        },
        Phase::Gather => {
            let relaxes = before.shed_from == before.holds(d.reads);
            match d.writes {
                HeightGrid::A => {
                    &&& relaxes ==> after.a == relaxed_once(m, before.holds(d.reads), grid)
                    &&& after.b == before.b
                },
                HeightGrid::B => {
                    &&& relaxes ==> after.b == relaxed_once(m, before.holds(d.reads), grid)
                    &&& after.a == before.a
                },
            }
        },
    }
}

/// Running the schedule relaxes the uploaded heights, pass by pass: after the first `2 * passes`
/// dispatches the grid that is then newest holds the heights after `passes` passes, whatever the
/// other grid and the scratch held at the start.
pub proof fn law_schedule_relaxes<H, A>(
    m: TalusMath<H, A>,
    grid: Grid,
    heights: Seq<H>,
    states: Seq<Device<H>>,
    passes: nat,
)
    requires
        states.len() == 2 * passes + 1,
        states[0].a == heights,
        forall|j: int|
            0 <= j < 2 * passes ==> runs(m, grid, dispatch(j), states[j], #[trigger] states[j + 1]),
    ensures
        states.last().holds(holds_after(passes as int)) == relaxed(m, heights, grid, passes),
    decreases passes,
{
    if passes > 0 {
        let before = (passes - 1) as nat;
        let k = 2 * before as int;
        let sub = states.take(k + 1);
        assert forall|j: int| 0 <= j < 2 * before implies runs(
            m,
            grid,
            dispatch(j),
            sub[j],
            #[trigger] sub[j + 1],
        ) by {
            assert(sub[j + 1] == states[j + 1]);
        }
        law_schedule_relaxes(m, grid, heights, sub, before);
        assert(sub.last() == states[k]);
        assert(runs(m, grid, dispatch(k), states[k], states[k + 1]));
        assert(runs(m, grid, dispatch(k + 1), states[k + 1], states[k + 1 + 1]));
        assert(states.last() == states[k + 2]);
        assert(dispatch(k).reads == holds_after(before as int));
        assert(dispatch(k + 1).reads == holds_after(before as int));
        assert(dispatch(k + 1).writes == holds_after(passes as int));
    }
}

/// Two runs of the schedule over the same heights leave the same heights.
pub proof fn law_runs_repeat<H, A>(
    m: TalusMath<H, A>,
    grid: Grid,
    heights: Seq<H>,
    states: Seq<Device<H>>,
    others: Seq<Device<H>>,
    passes: nat,
)
    requires
        states.len() == 2 * passes + 1,
        others.len() == states.len(),
        states[0].a == heights,
        others[0].a == heights,
        forall|j: int|
            0 <= j < 2 * passes ==> runs(m, grid, dispatch(j), states[j], #[trigger] states[j + 1]),
        forall|j: int|
            0 <= j < 2 * passes ==> runs(m, grid, dispatch(j), others[j], #[trigger] others[j + 1]),
    ensures
        states.last().holds(holds_after(passes as int)) == others.last().holds(
            holds_after(passes as int),
        ),
{
    law_schedule_relaxes(m, grid, heights, states, passes);
    law_schedule_relaxes(m, grid, heights, others, passes);
}

/// Heights that differ nowhere by more than `e`, as `apart` measures it.
pub open spec fn close<H>(apart: spec_fn(H, H) -> real, x: Seq<H>, y: Seq<H>, e: real) -> bool {
    &&& x.len() == y.len()
    &&& forall|c: int| 0 <= c < x.len() ==> #[trigger] apart(x[c], y[c]) <= e
}

/// Differences add up, and none is between a height and itself.
pub open spec fn measures_apart<H>(apart: spec_fn(H, H) -> real) -> bool {
    &&& forall|x: H| #[trigger] apart(x, x) == 0 as real
    &&& forall|x: H, y: H, z: H|
        #[trigger] apart(x, z) <= #[trigger] apart(x, y) + #[trigger] apart(y, z)
}

/// One relaxation pass widens no difference by more than the factor `spread`.
pub open spec fn spreads<H, A>(
    m: TalusMath<H, A>,
    grid: Grid,
    apart: spec_fn(H, H) -> real,
    spread: real,
) -> bool {
    forall|x: Seq<H>, y: Seq<H>, t: real|
        x.len() == grid.cells() && #[trigger] close(apart, x, y, t) ==> close(
            apart,
            relaxed_once(m, x, grid),
            relaxed_once(m, y, grid),
            spread * t,
        )
}

/// A device that computes what it is told up to `e`: as [`runs`], but a gather phase may be off by
/// as much everywhere.
pub open spec fn runs_within<H, A>(
    m: TalusMath<H, A>,
    grid: Grid,
    apart: spec_fn(H, H) -> real,
    e: real,
    d: Dispatch,
    before: Device<H>,
    after: Device<H>,
) -> bool {
    match d.phase {
        Phase::Shed => {
            &&& after.a == before.a
            &&& after.b == before.b
            &&& after.shed_from == before.holds(d.reads)
        },
        Phase::Gather => {
            let relaxes = before.shed_from == before.holds(d.reads);
            let want = relaxed_once(m, before.holds(d.reads), grid);
            match d.writes {
                HeightGrid::A => {
                    &&& relaxes ==> close(apart, after.a, want, e)
                    &&& after.b == before.b
                },
                HeightGrid::B => {
                    &&& relaxes ==> close(apart, after.b, want, e)
                    &&& after.a == before.a
                },
            }
        },
    }
}

/// How far a run of `passes` passes may drift: each adds `e` to what it widens.
pub open spec fn drift(spread: real, e: real, passes: nat) -> real
    decreases passes,
{
    if passes == 0 {
        0 as real
    } else {
        spread * drift(spread, e, (passes - 1) as nat) + e
    }
}

/// Run in order on a device that is off by no more than `e` a pass, the schedule leaves the heights
/// relaxed over all the passes up to the drift, one for every cell.
pub proof fn law_schedule_stays_close<H, A>(
    m: TalusMath<H, A>,
    grid: Grid,
    heights: Seq<H>,
    states: Seq<Device<H>>,
    passes: nat,
    apart: spec_fn(H, H) -> real,
    spread: real,
    e: real,
)
    requires
        measures_apart(apart),
        spreads(m, grid, apart, spread),
        heights.len() == grid.cells(),
        states.len() == 2 * passes + 1,
        states[0].a == heights,
        forall|j: int|
            0 <= j < 2 * passes ==> runs_within(
                m,
                grid,
                apart,
                e,
                dispatch(j),
                states[j],
                #[trigger] states[j + 1],
            ),
    ensures
        states.last().holds(holds_after(passes as int)).len() == grid.cells(),
        close(
            apart,
            states.last().holds(holds_after(passes as int)),
            relaxed(m, heights, grid, passes),
            drift(spread, e, passes),
        ),
    decreases passes,
{
    if passes > 0 {
        let before = (passes - 1) as nat;
        let k = 2 * before as int;
        let sub = states.take(k + 1);
        assert forall|j: int| 0 <= j < 2 * before implies runs_within(
            m,
            grid,
            apart,
            e,
            dispatch(j),
            sub[j],
            #[trigger] sub[j + 1],
        ) by {
            assert(sub[j] == states[j]);
            assert(sub[j + 1] == states[j + 1]);
        }
        law_schedule_stays_close(m, grid, heights, sub, before, apart, spread, e);
        assert(sub.last() == states[k]);
        assert(runs_within(m, grid, apart, e, dispatch(k), states[k], states[k + 1]));
        assert(runs_within(m, grid, apart, e, dispatch(k + 1), states[k + 1], states[k + 1 + 1]));
        assert(states.last() == states[k + 2]);
        assert(dispatch(k).reads == holds_after(before as int));
        assert(dispatch(k + 1).reads == holds_after(before as int));
        assert(dispatch(k + 1).writes == holds_after(passes as int));
        let had = states[k].holds(holds_after(before as int));
        let got = states.last().holds(holds_after(passes as int));
        let exact = relaxed(m, heights, grid, before);
        let t = drift(spread, e, before);
        let mid = relaxed_once(m, had, grid);
        let want = relaxed_once(m, exact, grid);
        assert(close(apart, had, exact, t));
        assert(close(apart, mid, want, spread * t));
        assert(close(apart, got, mid, e));
        assert forall|c: int| 0 <= c < got.len() implies #[trigger] apart(got[c], want[c])
            <= spread * t + e by {
            assert(apart(got[c], mid[c]) <= e);
            assert(apart(mid[c], want[c]) <= spread * t);
        }
    } else {
        let got = states.last().holds(holds_after(0));
        assert forall|c: int| 0 <= c < got.len() implies #[trigger] apart(got[c], heights[c])
            <= 0 as real by {}
    }
}

/// Where there is nothing to schedule, the heights as they are handed in are the relaxed ones.
pub proof fn law_nothing_scheduled_keeps_the_heights<H, A>(
    m: TalusMath<H, A>,
    grid: Grid,
    heights: Seq<H>,
    passes: nat,
)
    requires
        heights.len() == grid.cells(),
        grid.cells() == 0 || passes == 0,
    ensures
        relaxed(m, heights, grid, passes) == heights,
{
    if passes > 0 {
        let before = relaxed(m, heights, grid, (passes - 1) as nat);
        assert(relaxed_once(m, before, grid) =~= heights);
    }
}

/// Byte `k` of a word, counting from the least significant.
pub open spec fn byte_of(word: u32, k: int) -> u8 {
    if k == 0 {
        (word % 0x100) as u8
    } else if k == 1 {
        (word / 0x100 % 0x100) as u8
    } else if k == 2 {
        (word / 0x1_0000 % 0x100) as u8
    } else {
        (word / 0x100_0000) as u8
    }
}

/// Words one after the other, each with its least significant byte first.
pub open spec fn little_endian(words: Seq<u32>) -> Seq<u8> {
    Seq::new(4 * words.len(), |i: int| byte_of(words[i / 4], i % 4))
}

/// Words one after the other, each with its most significant byte first.
pub open spec fn big_endian(words: Seq<u32>) -> Seq<u8> {
    Seq::new(4 * words.len(), |i: int| byte_of(words[i / 4], 3 - i % 4))
}

/// `bytemuck::bytes_of` on four words: their bytes as they lie in memory, word after word. In which
/// order the bytes of a word lie depends on the machine, and is the same for every word.
#[verifier::external_body]
fn bytes_of_words(words: &[u32; 4]) -> (r: Vec<u8>)
    ensures
        r@ == little_endian(words@) || r@ == big_endian(words@),
{
    bytemuck::bytes_of(words).to_vec()
}

/// What the device reads beside the grids: the field's size, and the bits of the repose threshold
/// and of the shed strength.
#[derive(Clone, Copy, Debug, PartialEq, Eq, Structural)]
pub struct Uniform {
    pub width: u32,
    pub height: u32,
    pub talus_per_cell: u32,
    pub strength: u32,
}

impl Uniform {
    /// The four words, in the order in which the device reads them.
    pub open spec fn words(self) -> Seq<u32> {
        seq![self.width, self.height, self.talus_per_cell, self.strength]
    }

    /// The bytes the device reads: the four words in order, in the machine's own byte order.
    pub fn bytes(&self) -> (r: Vec<u8>)
        ensures
            r@.len() == 16,
            r@ == little_endian(self.words()) || r@ == big_endian(self.words()),
    {
        let words: [u32; 4] = [self.width, self.height, self.talus_per_cell, self.strength];
        assert(words@ =~= self.words());
        bytes_of_words(&words)
    }
}

} // verus!
