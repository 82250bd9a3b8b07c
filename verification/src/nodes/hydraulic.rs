//! Hydraulic erosion: many droplets run over the ground, dig where they are fast and drop their
//! load where they slow.
use crate::brush::{Brush, BrushCell};
use crate::droplet::{
    droplet_math, droplet_run, droplet_total, law_droplet_spares_a_masked_cell, masked_out,
    simulate_droplet, spared, Act, DropletFns, DropletMath, Ground, Land,
};
use crate::erosion::{byproduct_field, mask_layer, mask_of, taps};
use crate::field::{Field, Layer, HEIGHT};
use crate::functions::{accepts_lists, computes2, keeps_lists, of_list, total2};
use crate::grid::Grid;
use crate::node::{float_param, int_param, optional_port, port, Node, NodeSpec, ParamSpec, PortSpec};
use crate::rng::{
    drawn_unit, droplet_seed, droplet_seed_of, law_draws_continue, state_after, SplitMix64,
};
use crate::shaping::{relayered, with_heights};
use crate::water_sim::Sided;
use vstd::prelude::*;

verus! {

/// Hydraulic erosion modifier: one input (plus optional mask/hardness), and the erosion taps.
#[derive(Clone, Copy, Debug)]
pub struct HydraulicErosion;

/// What the node declares.
pub open spec fn hydraulic_node() -> Node {
    Node {
        type_id: "modifier.hydraulic_erosion"@,
        category: "geology"@,
        tags: Seq::empty(),
        inputs: seq![port("in"@), optional_port("mask"@)],
        outputs: seq![
            port("heightfield"@),
            port("wear"@),
            port("deposition"@),
            port("flow"@),
        ],
        params: seq![
            float_param("density"@, 0, 16_000_000, 3_000_000),
            float_param("inertia"@, 0, 1_000_000, 50_000),
            float_param("capacity"@, 100_000, 16_000_000, 4_000_000),
            float_param("erosion"@, 0, 1_000_000, 300_000),
            float_param("deposition"@, 0, 1_000_000, 300_000),
            float_param("evaporation"@, 0, 200_000, 20_000),
            int_param("radius"@, 1, 8, 3),
        ],
        emitted_layers: Seq::empty(),
        mask_aware: false,
    }
}

impl HydraulicErosion {
    /// The node's declaration.
    pub fn spec(&self) -> (r: NodeSpec)
        ensures
            r@ == hydraulic_node(),
            r@.defaults_admitted(),
    {
        let r: NodeSpec = NodeSpec {
            type_id: "modifier.hydraulic_erosion",
            category: "geology",
            tags: Vec::new(),
            inputs: vec![PortSpec::new("in"), PortSpec::optional("mask")],
            outputs: vec![
                PortSpec::new("heightfield"),
                PortSpec::new("wear"),
                PortSpec::new("deposition"),
                PortSpec::new("flow"),
            ],
            params: vec![
                ParamSpec::number("density", 0, 16_000_000, 3_000_000),
                ParamSpec::number("inertia", 0, 1_000_000, 50_000),
                ParamSpec::number("capacity", 100_000, 16_000_000, 4_000_000),
                ParamSpec::number("erosion", 0, 1_000_000, 300_000),
                ParamSpec::number("deposition", 0, 1_000_000, 300_000),
                ParamSpec::number("evaporation", 0, 200_000, 20_000),
                ParamSpec::integer("radius", 1, 8, 3),
            ],
            emitted_layers: Vec::new(),
            mask_aware: false,
        };
        assert(r@ =~= hydraulic_node());
        r
    }
}

/// Sets the rain apart from every other use of the world's seed.
pub const RAIN_SALT: u64 = 0x4459_4452_4F50_0001;

/// A droplet lives for at least one step.
pub open spec fn lifetime_of(scaled: int) -> int {
    if scaled < 1 {
        1
    } else {
        scaled
    }
}

/// The droplet that falls `i`th: where it starts is drawn from its own seed alone.
pub open spec fn raindrop<D>(base: u64, start: spec_fn(u32, u32) -> D, i: int) -> D {
    let seed = droplet_seed_of(base, i as u64);
    start(drawn_unit(seed, 0), drawn_unit(seed, 1))
}

/// The ground after the first `n` droplets.
pub open spec fn rained_on<D, V>(
    m: DropletMath<D, V>,
    start: spec_fn(u32, u32) -> D,
    cells: Seq<BrushCell<V>>,
    grid: Grid,
    mask: Seq<V>,
    land: Land<V>,
    base: u64,
    lifetime: nat,
    n: int,
) -> Land<V>
    decreases n,
{
    if n <= 0 {
        land
    } else {
        droplet_run(
            m,
            cells,
            grid,
            mask,
            rained_on(m, start, cells, grid, mask, land, base, lifetime, n - 1),
            raindrop(base, start, n - 1),
            lifetime,
        )
    }
}

/// The ground before any rain: its heights, and nothing worn, settled or visited.
pub open spec fn untouched<V>(heights: Seq<V>, zero: V) -> Land<V> {
    let none = Seq::new(heights.len(), |c: int| zero);
    Land { map: heights, wear: none, deposition: none, flow: none }
}

/// Whether there is nothing to do: no room for the four cells a droplet reads, or no rain.
pub open spec fn passes_through(width: usize, height: usize, droplets: usize) -> bool {
    width < 2 || height < 2 || droplets == 0
}

impl HydraulicErosion {
    /// A droplet's lifetime, where `scaled` is what it comes to at the field's resolution.
    pub fn lifetime(scaled: usize) -> (r: usize)
        ensures
            r == lifetime_of(scaled as int),
    {
        if scaled < 1 {
            1
        } else {
            scaled
        }
    }

    /// Lets `droplets` droplets run over the ground, one after the other. Polls `cancelled` before
    /// each, and stops when it says so: `false` then.
    pub fn rain<
        D: Copy,
        V: Copy,
        N: Fn(D) -> (usize, usize),
        H: Fn(D, (usize, usize), Sided<V>) -> V,
        M: Fn(D, (usize, usize), Sided<V>) -> Option<D>,
        W: Fn(D, (usize, usize)) -> Sided<V>,
        A: Fn(D, V, V) -> Act<V>,
        P: Fn(V, V, V) -> V,
        Q: Fn(V, V) -> V,
        S: Fn(V, V) -> V,
        T: Fn(V) -> V,
        E: Fn(D, (V, V), bool, V) -> D,
        B: Fn(u32, u32) -> D,
        X: Fn() -> bool,
    >(
        ground: &mut Ground<V>,
        f: &DropletFns<V, N, H, M, W, A, P, Q, S, T, E>,
        start: &B,
        brush: &Brush<V>,
        grid: &Grid,
        mask: &Vec<V>,
        base: u64,
        lifetime: usize,
        droplets: usize,
        cancelled: &X,
    ) -> (r: bool)
        requires
            grid.wf(),
            grid.width >= 2,
            grid.height >= 2,
            brush.wf(),
            mask@.len() >= grid.cells(),
            old(ground)@.wf(*grid),
            droplet_total(*f),
            total2(*start),
            call_requires(*cancelled, ()),
        ensures
            final(ground)@.wf(*grid),
            !r ==> droplets > 0 && call_ensures(*cancelled, (), true),
            r ==> droplets == 0 || call_ensures(*cancelled, (), false),
            r ==> forall|m: DropletMath<D, V>, s: spec_fn(u32, u32) -> D|
                #![trigger droplet_math(m, *f), computes2(*start, s)]
                droplet_math(m, *f) && computes2(*start, s) ==> final(ground)@ == rained_on(
                    m,
                    s,
                    brush.cells@,
                    *grid,
                    mask@,
                    old(ground)@,
                    base,
                    lifetime as nat,
                    droplets as int,
                ),
    {
        let ghost land = ground@;
        let mut i: usize = 0;
        while i < droplets
            invariant
                grid.wf(),
                grid.width >= 2,
                grid.height >= 2,
                brush.wf(),
                mask@.len() >= grid.cells(),
                ground@.wf(*grid),
                droplet_total(*f),
                total2(*start),
                call_requires(*cancelled, ()),
                i <= droplets,
                i > 0 ==> call_ensures(*cancelled, (), false),
                land == old(ground)@,
                forall|m: DropletMath<D, V>, s: spec_fn(u32, u32) -> D|
                    #![trigger droplet_math(m, *f), computes2(*start, s)]
                    droplet_math(m, *f) && computes2(*start, s) ==> ground@ == rained_on(
                        m,
                        s,
                        brush.cells@,
                        *grid,
                        mask@,
                        land,
                        base,
                        lifetime as nat,
                        i as int,
                    ),
            decreases droplets - i,
        {
            if cancelled() {
                return false;
            }
            let seed: u64 = droplet_seed(base, i as u64);
            let mut stream: SplitMix64 = SplitMix64::new(seed);
            let u: u32 = stream.next_unit();
            let v: u32 = stream.next_unit();
            proof {
                law_draws_continue(seed, 1, 0);
                assert(v == drawn_unit(state_after(seed, 1), 0));
            }
            let d: D = start(u, v);
            let ghost was = ground@;
            simulate_droplet(ground, f, brush, grid, mask, d, lifetime);
            proof {
                assert forall|m: DropletMath<D, V>, s: spec_fn(u32, u32) -> D|
                    #![trigger droplet_math(m, *f), computes2(*start, s)]
                    droplet_math(m, *f) && computes2(*start, s) implies ground@ == rained_on(
                    m,
                    s,
                    brush.cells@,
                    *grid,
                    mask@,
                    land,
                    base,
                    lifetime as nat,
                    i + 1,
                ) by {
                    assert(call_ensures(*start, (u, v), d));
                    assert(d == raindrop(base, s, i as int));
                }
            }
            i += 1;
        }
        true
    }

    /// Erodes the input by rain. The result is the input with the heights the droplets leave, and
    /// what wore, what settled, and `normalize` of the visits. `ends` is the height of a field
    /// without one, and a full mask. Where there is nothing to do the input passes through, and
    /// the taps are empty. `None` when cancelled.
    pub fn eval<
        R: Copy,
        D: Copy,
        V: Copy,
        N: Fn(D) -> (usize, usize),
        H: Fn(D, (usize, usize), Sided<V>) -> V,
        M: Fn(D, (usize, usize), Sided<V>) -> Option<D>,
        W: Fn(D, (usize, usize)) -> Sided<V>,
        A: Fn(D, V, V) -> Act<V>,
        P: Fn(V, V, V) -> V,
        Q: Fn(V, V) -> V,
        S: Fn(V, V) -> V,
        T: Fn(V) -> V,
        E: Fn(D, (V, V), bool, V) -> D,
        B: Fn(u32, u32) -> D,
        F: Fn(&Vec<V>) -> Vec<V>,
        X: Fn() -> bool,
    >(
        input: &Field<V, R>,
        mask: Option<&Field<V, R>>,
        ends: (V, V),
        f: &DropletFns<V, N, H, M, W, A, P, Q, S, T, E>,
        start: &B,
        normalize: &F,
        brush: &Brush<V>,
        seed: u64,
        lifetime: usize,
        droplets: usize,
        cancelled: &X,
    ) -> (r: Option<Vec<Field<V, R>>>)
        requires
            input.wf(),
            mask matches Some(m) ==> m.wf(),
            passes_through(input.width, input.height, droplets) || input.layer_or_of(
                HEIGHT@,
                ends.0,
            ).cells.len() == input.width * input.height,
            passes_through(input.width, input.height, droplets) || mask_of(
                *input,
                mask,
                ends.1,
            ).cells.len() >= input.width * input.height,
            brush.wf(),
            f.zero == ends.0,
            droplet_total(*f),
            total2(*start),
            accepts_lists(*normalize, (input.width * input.height) as nat),
            keeps_lists(*normalize, (input.width * input.height) as nat),
            call_requires(*cancelled, ()),
        ensures
            r is None ==> !passes_through(input.width, input.height, droplets) && call_ensures(
                *cancelled,
                (),
                true,
            ),
            r is Some ==> passes_through(input.width, input.height, droplets) || call_ensures(
                *cancelled,
                (),
                false,
            ),
            r matches Some(out) ==> out@.len() == 4,
            r matches Some(out) ==> if passes_through(input.width, input.height, droplets) {
                let none = Seq::new((input.width * input.height) as nat, |c: int| ends.0);
                &&& out@[0].layers() == input.layers()
                &&& out@[0].width == input.width && out@[0].height == input.height
                &&& out@[0].region == input.region
                &&& taps(out@[1], input.width, input.height, input.region, none)
                &&& taps(out@[2], input.width, input.height, input.region, none)
                &&& taps(out@[3], input.width, input.height, input.region, none)
            } else {
                exists|land: Land<V>, visits: Vec<V>|
                    {
                        &&& relayered(out@[0], *input, HEIGHT@)
                        &&& out@[0].layers()[HEIGHT@].cells == land.map
                        &&& taps(out@[1], input.width, input.height, input.region, land.wear)
                        &&& taps(out@[2], input.width, input.height, input.region, land.deposition)
                        &&& #[trigger] of_list(*normalize, land.flow, visits)
                        &&& taps(out@[3], input.width, input.height, input.region, visits@)
                        &&& forall|m: DropletMath<D, V>, s: spec_fn(u32, u32) -> D|
                            #![trigger droplet_math(m, *f), computes2(*start, s)]
                            droplet_math(m, *f) && computes2(*start, s) ==> land == rained_on(
                                m,
                                s,
                                brush.cells@,
                                (Grid { width: input.width, height: input.height }),
                                mask_of(*input, mask, ends.1).cells,
                                untouched(input.layer_or_of(HEIGHT@, ends.0).cells, ends.0),
                                seed ^ RAIN_SALT,
                                lifetime as nat,
                                droplets as int,
                            )
                    }
            },
    {
        let grid: Grid = Grid { width: input.width, height: input.height };
        let n: usize = grid.len();
        let none: Vec<V> = Layer::filled(input.width, input.height, ends.0).cells;
        if input.width < 2 || input.height < 2 || droplets == 0 {
            let worn: Vec<V> = vstd::slice::slice_to_vec(none.as_slice());
            let settled: Vec<V> = vstd::slice::slice_to_vec(none.as_slice());
            let r: Option<Vec<Field<V, R>>> = Some(
                vec![
                    input.copy(),
                    byproduct_field(worn, input.width, input.height, input.region),
                    byproduct_field(settled, input.width, input.height, input.region),
                    byproduct_field(none, input.width, input.height, input.region),
                ],
            );
            return r;
        }
        let source: Layer<V> = input.layer_or(HEIGHT, ends.0);
        let m: Layer<V> = mask_layer(input, mask, ends.1);
        let worn: Vec<V> = vstd::slice::slice_to_vec(none.as_slice());
        let settled: Vec<V> = vstd::slice::slice_to_vec(none.as_slice());
        let mut ground: Ground<V> = Ground {
            map: source.cells,
            wear: worn,
            deposition: settled,
            flow: none,
        };
        assert(ground@ =~= untouched(input.layer_or_of(HEIGHT@, ends.0).cells, ends.0));
        if !Self::rain(
            &mut ground,
            f,
            start,
            brush,
            &grid,
            &m.cells,
            seed ^ RAIN_SALT,
            lifetime,
            droplets,
            cancelled,
        ) {
            return None;
        }
        if cancelled() {
            return None;
        }
        let ghost land = ground@;
        let visits: Vec<V> = normalize(&ground.flow);
        let ghost seen = visits;
        assert(of_list(*normalize, land.flow, seen));
        let r: Option<Vec<Field<V, R>>> = Some(
            vec![
                with_heights(input, ground.map),
                byproduct_field(ground.wear, input.width, input.height, input.region),
                byproduct_field(ground.deposition, input.width, input.height, input.region),
                byproduct_field(visits, input.width, input.height, input.region),
            ],
        );
        assert(r->0@[0].layers()[HEIGHT@].cells == land.map);
        r
    }
}

/// A masked-out cell keeps its height, its wear and its deposition over the whole rain.
pub proof fn law_rain_spares_a_masked_cell<D, V>(
    m: DropletMath<D, V>,
    start: spec_fn(u32, u32) -> D,
    cells: Seq<BrushCell<V>>,
    grid: Grid,
    mask: Seq<V>,
    land: Land<V>,
    base: u64,
    lifetime: nat,
    n: int,
    c: int,
)
    requires
        grid.width >= 2,
        grid.height >= 2,
        land.wf(grid),
        0 <= c < grid.cells(),
        masked_out(m, mask, land, c),
    ensures
        spared(
            land,
            rained_on(m, start, cells, grid, mask, land, base, lifetime, n),
            grid,
            c,
        ),
    decreases n,
{
    if n > 0 {
        law_rain_spares_a_masked_cell(
            m,
            start,
            cells,
            grid,
            mask,
            land,
            base,
            lifetime,
            n - 1,
            c,
        );
        law_droplet_spares_a_masked_cell(
            m,
            cells,
            grid,
            mask,
            rained_on(m, start, cells, grid, mask, land, base, lifetime, n - 1),
            raindrop(base, start, n - 1),
            lifetime,
            c,
        );
    }
}

} // verus!
