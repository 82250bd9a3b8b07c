//! The droplet flow selector: droplets walk down the terrain, and where many pass is selected.
use crate::droplet::{clamp_to_stencil, lemma_stencil, read_at, read_corners, stencil};
use crate::field::{Field, Layer, HEIGHT};
use crate::functions::{
    accepts_lists, computes1, computes2, computes3, keeps_lists, of_list, total1, total2, total3,
};
use crate::grid::Grid;
use crate::node::{float_param, port, Node, NodeSpec, ParamSpec, PortSpec};
use crate::rng::{drawn_unit, law_draws_continue, state_after, SplitMix64};
use crate::shaping::{map_cells, relayered, with_heights};
use crate::water_sim::Sided;
use vstd::prelude::*;

verus! {

/// Droplet flow selector: one input, one output. Writes the selection to the height layer.
#[derive(Clone, Copy, Debug)]
pub struct FlowDroplet;

/// What the node declares.
pub open spec fn flow_droplet_node() -> Node {
    Node {
        type_id: "modifier.flow_droplet"@,
        category: "selector"@,
        tags: Seq::empty(),
        inputs: seq![port("in"@)],
        outputs: seq![port("out"@)],
        params: seq![
            float_param("min"@, 0, 1_000_000, 300_000),
            float_param("max"@, 0, 1_000_000, 1_000_000),
            float_param("falloff"@, 0, 1_000_000, 150_000),
            float_param("inertia"@, 0, 950_000, 300_000),
            float_param("rain"@, 100_000, 8_000_000, 1_000_000),
        ],
        emitted_layers: Seq::empty(),
        mask_aware: false,
    }
}

impl FlowDroplet {
    /// The node's declaration.
    pub fn spec(&self) -> (r: NodeSpec)
        ensures
            r@ == flow_droplet_node(),
            r@.defaults_admitted(),
    {
        let r: NodeSpec = NodeSpec {
            type_id: "modifier.flow_droplet",
            category: "selector",
            tags: Vec::new(),
            inputs: vec![PortSpec::new("in")],
            outputs: vec![PortSpec::new("out")],
            params: vec![
                ParamSpec::number("min", 0, 1_000_000, 300_000),
                ParamSpec::number("max", 0, 1_000_000, 1_000_000),
                ParamSpec::number("falloff", 0, 1_000_000, 150_000),
                ParamSpec::number("inertia", 0, 950_000, 300_000),
                ParamSpec::number("rain", 100_000, 8_000_000, 1_000_000),
            ],
            emitted_layers: Vec::new(),
            mask_aware: false,
        };
        assert(r@ =~= flow_droplet_node());
        r
    }
}

/// Sets this rain apart from every other use of the world's seed.
pub const WALK_SALT: u64 = 0x517C_C1B7_2722_0A95;

/// The arithmetic of a walking droplet, as executable functions.
pub struct WalkFns<N, M, W, Q> {
    /// The column and row a droplet's position falls in.
    pub node: N,
    /// The droplet after its move, from its node and the four heights read there; `None` where it
    /// stalls or leaves the domain.
    pub advance: M,
    /// The shares of the four cells at a droplet's position.
    pub weights: W,
    /// The sum of two amounts.
    pub plus: Q,
}

/// The arithmetic of a walking droplet.
#[verifier::reject_recursive_types(D)]
#[verifier::reject_recursive_types(V)]
pub ghost struct WalkMath<D, V> {
    pub node: spec_fn(D) -> (usize, usize),
    pub advance: spec_fn(D, (usize, usize), Sided<V>) -> Option<D>,
    pub weights: spec_fn(D, (usize, usize)) -> Sided<V>,
    pub plus: spec_fn(V, V) -> V,
}

/// The executable functions accept every argument.
pub open spec fn walk_total<
    D,
    V,
    N: Fn(D) -> (usize, usize),
    M: Fn(D, (usize, usize), Sided<V>) -> Option<D>,
    W: Fn(D, (usize, usize)) -> Sided<V>,
    Q: Fn(V, V) -> V,
>(f: WalkFns<N, M, W, Q>) -> bool {
    &&& total1(f.node)
    &&& total3(f.advance)
    &&& total2(f.weights)
    &&& total2(f.plus)
}

/// The executable functions compute the arithmetic `m`.
pub open spec fn walk_math<
    D,
    V,
    N: Fn(D) -> (usize, usize),
    M: Fn(D, (usize, usize), Sided<V>) -> Option<D>,
    W: Fn(D, (usize, usize)) -> Sided<V>,
    Q: Fn(V, V) -> V,
>(m: WalkMath<D, V>, f: WalkFns<N, M, W, Q>) -> bool {
    &&& computes1(f.node, m.node)
    &&& computes3(f.advance, m.advance)
    &&& computes2(f.weights, m.weights)
    &&& computes2(f.plus, m.plus)
}

/// The node of a droplet.
pub open spec fn walk_node<D, V>(m: WalkMath<D, V>, grid: Grid, d: D) -> (usize, usize) {
    let p = (m.node)(d);
    (stencil(p.0, grid.width), stencil(p.1, grid.height))
}

/// The flow with a unit spread over the four cells from a node, by their shares.
pub open spec fn splat<D, V>(
    m: WalkMath<D, V>,
    grid: Grid,
    acc: Seq<V>,
    node: (usize, usize),
    shares: Sided<V>,
) -> Seq<V> {
    let (x, y) = (node.0 as int, node.1 as int);
    let a = grid.index(x, y);
    let b = grid.index(x + 1, y);
    let c = grid.index(x, y + 1);
    let d = grid.index(x + 1, y + 1);
    let s = acc.update(a, (m.plus)(acc[a], shares.0));
    let t = s.update(b, (m.plus)(s[b], shares.1));
    let u = t.update(c, (m.plus)(t[c], shares.2));
    u.update(d, (m.plus)(u[d], shares.3))
}

/// The flow after a droplet's walk of at most `steps` steps.
pub open spec fn walked<D, V>(
    m: WalkMath<D, V>,
    bed: Seq<V>,
    grid: Grid,
    acc: Seq<V>,
    d: D,
    steps: nat,
) -> Seq<V>
    decreases steps,
{
    if steps == 0 {
        acc
    } else {
        let node = walk_node(m, grid, d);
        match (m.advance)(d, node, read_at(bed, grid, node)) {
            None => acc,
            Some(e) => {
                let there = walk_node(m, grid, e);
                walked(
                    m,
                    bed,
                    grid,
                    splat(m, grid, acc, there, (m.weights)(e, there)),
                    e,
                    (steps - 1) as nat,
                )
            },
        }
    }
}

/// The flow after the first `n` droplets of one stream, two draws each. A droplet may cross the
/// domain once.
pub open spec fn showered<D, V>(
    m: WalkMath<D, V>,
    start: spec_fn(u32, u32) -> D,
    bed: Seq<V>,
    grid: Grid,
    zero: V,
    seed: u64,
    n: int,
) -> Seq<V>
    decreases n,
{
    if n <= 0 {
        Seq::new(grid.cells(), |c: int| zero)
    } else {
        let i = n - 1;
        walked(
            m,
            bed,
            grid,
            showered(m, start, bed, grid, zero, seed, i),
            start(drawn_unit(seed, 2 * i), drawn_unit(seed, 2 * i + 1)),
            (grid.width + grid.height) as nat,
        )
    }
}

/// One droplet's walk.
fn walk<
    D: Copy,
    V: Copy,
    N: Fn(D) -> (usize, usize),
    M: Fn(D, (usize, usize), Sided<V>) -> Option<D>,
    W: Fn(D, (usize, usize)) -> Sided<V>,
    Q: Fn(V, V) -> V,
>(
    acc: &mut Vec<V>,
    bed: &Vec<V>,
    grid: &Grid,
    f: &WalkFns<N, M, W, Q>,
    start: D,
    steps: usize,
)
    requires
        grid.wf(),
        grid.width >= 2,
        grid.height >= 2,
        bed@.len() == grid.cells(),
        old(acc)@.len() == grid.cells(),
        walk_total(*f),
    ensures
        final(acc)@.len() == grid.cells(),
        forall|m: WalkMath<D, V>| #[trigger]
            walk_math(m, *f) ==> final(acc)@ == walked(
                m,
                bed@,
                *grid,
                old(acc)@,
                start,
                steps as nat,
            ),
{
    let ghost before = acc@;
    let mut d: D = start;
    let mut left: usize = steps;
    while left > 0
        invariant
            grid.wf(),
            grid.width >= 2,
            grid.height >= 2,
            bed@.len() == grid.cells(),
            acc@.len() == grid.cells(),
            walk_total(*f),
            before == old(acc)@,
            forall|m: WalkMath<D, V>| #[trigger]
                walk_math(m, *f) ==> walked(m, bed@, *grid, before, start, steps as nat)
                    == walked(m, bed@, *grid, acc@, d, left as nat),
        decreases left,
    {
        let ghost was = acc@;
        let p: (usize, usize) = (f.node)(d);
        let node: (usize, usize) = (
            clamp_to_stencil(p.0, grid.width),
            clamp_to_stencil(p.1, grid.height),
        );
        let read: Sided<V> = read_corners(bed, grid, node);
        let moved: Option<D> = (f.advance)(d, node, read);
        proof {
            assert forall|m: WalkMath<D, V>| #[trigger] walk_math(m, *f) implies node
                == walk_node(m, *grid, d) && moved == (m.advance)(d, node, read) by {
                assert(call_ensures(f.node, (d,), p));
                assert(call_ensures(f.advance, (d, node, read), moved));
            }
        }
        let e: D = match moved {
            Some(e) => e,
            None => {
                return ;
            },
        };
        let q: (usize, usize) = (f.node)(e);
        let there: (usize, usize) = (
            clamp_to_stencil(q.0, grid.width),
            clamp_to_stencil(q.1, grid.height),
        );
        let shares: Sided<V> = (f.weights)(e, there);
        proof {
            lemma_stencil(*grid, there);
            assert forall|m: WalkMath<D, V>| #[trigger] walk_math(m, *f) implies there
                == walk_node(m, *grid, e) && shares == (m.weights)(e, there) by {
                assert(call_ensures(f.node, (e,), q));
                assert(call_ensures(f.weights, (e, there), shares));
            }
        }
        let c: usize = there.1 * grid.width + there.0;
        lift(acc, c, shares.0, f);
        lift(acc, c + 1, shares.1, f);
        lift(acc, c + grid.width, shares.2, f);
        lift(acc, c + grid.width + 1, shares.3, f);
        proof {
            assert forall|m: WalkMath<D, V>| #[trigger] walk_math(m, *f) implies acc@ == splat(
                m,
                *grid,
                was,
                there,
                shares,
            ) by {}
        }
        d = e;
        left -= 1;
    }
}

/// Adds an amount to one cell.
fn lift<
    D: Copy,
    V: Copy,
    N: Fn(D) -> (usize, usize),
    M: Fn(D, (usize, usize), Sided<V>) -> Option<D>,
    W: Fn(D, (usize, usize)) -> Sided<V>,
    Q: Fn(V, V) -> V,
>(acc: &mut Vec<V>, c: usize, amount: V, f: &WalkFns<N, M, W, Q>)
    requires
        c < old(acc)@.len(),
        walk_total::<D, V, N, M, W, Q>(*f),
    ensures
        final(acc)@.len() == old(acc)@.len(),
        forall|m: WalkMath<D, V>| #[trigger]
            walk_math(m, *f) ==> final(acc)@ == old(acc)@.update(
                c as int,
                (m.plus)(old(acc)@[c as int], amount),
            ),
{
    let v: V = (f.plus)(acc[c], amount);
    proof {
        assert forall|m: WalkMath<D, V>| #[trigger] walk_math(m, *f) implies v == (m.plus)(
            old(acc)@[c as int],
            amount,
        ) by {
            assert(call_ensures(f.plus, (old(acc)@[c as int], amount), v));
        }
    }
    acc.set(c, v);
}

/// The flow of `droplets` droplets over a bed. Each starts where two draws say, walks down until it
/// stalls or leaves, and spreads a unit of flow at every step. A bed too thin for the four cells a
/// droplet reads has no flow.
pub fn droplet_flow<
    D: Copy,
    V: Copy,
    N: Fn(D) -> (usize, usize),
    M: Fn(D, (usize, usize), Sided<V>) -> Option<D>,
    W: Fn(D, (usize, usize)) -> Sided<V>,
    Q: Fn(V, V) -> V,
    B: Fn(u32, u32) -> D,
>(
    bed: &Vec<V>,
    grid: &Grid,
    zero: V,
    f: &WalkFns<N, M, W, Q>,
    start: &B,
    seed: u64,
    droplets: usize,
) -> (r: Vec<V>)
    requires
        grid.wf(),
        grid.width + grid.height <= usize::MAX,
        bed@.len() == grid.cells(),
        walk_total(*f),
        total2(*start),
    ensures
        r@.len() == grid.cells(),
        grid.width < 2 || grid.height < 2 ==> r@ == Seq::new(grid.cells(), |c: int| zero),
        grid.width >= 2 && grid.height >= 2 ==> forall|
            m: WalkMath<D, V>,
            s: spec_fn(u32, u32) -> D,
        |
            #![trigger walk_math(m, *f), computes2(*start, s)]
            walk_math(m, *f) && computes2(*start, s) ==> r@ == showered(
                m,
                s,
                bed@,
                *grid,
                zero,
                seed ^ WALK_SALT,
                droplets as int,
            ),
{
    let mut acc: Vec<V> = Layer::filled(grid.width, grid.height, zero).cells;
    assert(acc@ =~= Seq::new(grid.cells(), |c: int| zero));
    if grid.width < 2 || grid.height < 2 {
        return acc;
    }
    let steps: usize = grid.width + grid.height;
    let base: u64 = seed ^ WALK_SALT;
    let mut stream: SplitMix64 = SplitMix64::new(base);
    let mut i: usize = 0;
    while i < droplets
        invariant
            grid.wf(),
            grid.width >= 2,
            grid.height >= 2,
            steps == grid.width + grid.height,
            bed@.len() == grid.cells(),
            acc@.len() == grid.cells(),
            walk_total(*f),
            total2(*start),
            i <= droplets,
            base == seed ^ WALK_SALT,
            stream.state == state_after(base, 2 * i),
            forall|m: WalkMath<D, V>, s: spec_fn(u32, u32) -> D|
                #![trigger walk_math(m, *f), computes2(*start, s)]
                walk_math(m, *f) && computes2(*start, s) ==> acc@ == showered(
                    m,
                    s,
                    bed@,
                    *grid,
                    zero,
                    base,
                    i as int,
                ),
        decreases droplets - i,
    {
        let ghost at = stream.state;
        let u: u32 = stream.next_unit();
        let ghost next = stream.state;
        let v: u32 = stream.next_unit();
        proof {
            law_draws_continue(base, 2 * i, 0);
            law_draws_continue(base, 2 * i, 1);
            law_draws_continue(base, 2 * i + 1, 0);
            law_draws_continue(base, 2 * i + 1, 1);
            assert(next == state_after(at, 1));
            assert(stream.state == state_after(next, 1));
            assert(u == drawn_unit(base, 2 * i));
            assert(v == drawn_unit(base, 2 * i + 1));
        }
        let d: D = start(u, v);
        walk(&mut acc, bed, grid, f, d, steps);
        proof {
            assert forall|m: WalkMath<D, V>, s: spec_fn(u32, u32) -> D|
                #![trigger walk_math(m, *f), computes2(*start, s)]
                walk_math(m, *f) && computes2(*start, s) implies acc@ == showered(
                m,
                s,
                bed@,
                *grid,
                zero,
                base,
                i + 1,
            ) by {
                assert(call_ensures(*start, (u, v), d));
            }
        }
        i += 1;
    }
    acc
}

impl FlowDroplet {
    /// Selects by droplet flow: the input with every height replaced by `band` of the flow there,
    /// after `normalize` stretched it over its range.
    pub fn eval<
        R: Copy,
        D: Copy,
        V: Copy,
        N: Fn(D) -> (usize, usize),
        M: Fn(D, (usize, usize), Sided<V>) -> Option<D>,
        W: Fn(D, (usize, usize)) -> Sided<V>,
        Q: Fn(V, V) -> V,
        B: Fn(u32, u32) -> D,
        F: Fn(&Vec<V>) -> Vec<V>,
        K: Fn(V) -> V,
    >(
        input: &Field<V, R>,
        zero: V,
        f: &WalkFns<N, M, W, Q>,
        start: &B,
        normalize: &F,
        band: &K,
        seed: u64,
        droplets: usize,
    ) -> (r: Field<V, R>)
        requires
            input.wf(),
            input.width + input.height <= usize::MAX,
            input.layer_or_of(HEIGHT@, zero).cells.len() == input.width * input.height,
            walk_total(*f),
            total2(*start),
            accepts_lists(*normalize, (input.width * input.height) as nat),
            keeps_lists(*normalize, (input.width * input.height) as nat),
            total1(*band),
        ensures
            relayered(r, *input, HEIGHT@),
            exists|acc: Seq<V>, flow: Vec<V>|
                {
                    &&& #[trigger] of_list(*normalize, acc, flow)
                    &&& flow@.len() == r.layers()[HEIGHT@].cells.len()
                    &&& forall|c: int|
                        0 <= c < flow@.len() ==> call_ensures(
                            *band,
                            (flow@[c],),
                            #[trigger] r.layers()[HEIGHT@].cells[c],
                        )
                    &&& input.width < 2 || input.height < 2 ==> acc == Seq::new(
                        (input.width * input.height) as nat,
                        |c: int| zero,
                    )
                    &&& input.width >= 2 && input.height >= 2 ==> forall|
                        m: WalkMath<D, V>,
                        s: spec_fn(u32, u32) -> D,
                    |
                        #![trigger walk_math(m, *f), computes2(*start, s)]
                        walk_math(m, *f) && computes2(*start, s) ==> acc == showered(
                            m,
                            s,
                            input.layer_or_of(HEIGHT@, zero).cells,
                            (Grid { width: input.width, height: input.height }),
                            zero,
                            seed ^ WALK_SALT,
                            droplets as int,
                        )
                },
    {
        let grid: Grid = Grid { width: input.width, height: input.height };
        let bed: Layer<V> = input.layer_or(HEIGHT, zero);
        let acc: Vec<V> = droplet_flow(&bed.cells, &grid, zero, f, start, seed, droplets);
        let flow: Vec<V> = normalize(&acc);
        assert(of_list(*normalize, acc@, flow));
        let heights: Vec<V> = map_cells(&flow, band);
        with_heights(input, heights)
    }
}

} // verus!
