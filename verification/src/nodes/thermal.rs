//! Thermal erosion: the whole input relaxes to its angle of repose, and the result is composited
//! over the input through the mask.
use crate::erosion::{
    byproduct_field, changed, changes, composite, composites, mask_layer, mask_of, taps,
};
use crate::field::{Field, Layer, HEIGHT};
use crate::functions::{total2, total3};
use crate::grid::Grid;
use crate::node::{
    float_param, int_param, optional_port, port, unit_param, Node, NodeSpec, ParamSpec, PortSpec,
    Unit,
};
use crate::talus::{relax_pass, relaxed, talus_math, talus_total, TalusFns, TalusMath};
use vstd::prelude::*;

verus! {

/// Thermal erosion modifier: one input, one output.
#[derive(Clone, Copy, Debug)]
pub struct ThermalErosion;

/// What the node declares.
pub open spec fn thermal_node() -> Node {
    Node {
        type_id: "modifier.thermal_erosion"@,
        category: "geology"@,
        tags: Seq::empty(),
        inputs: seq![port("in"@), optional_port("mask"@)],
        outputs: seq![port("heightfield"@), port("wear"@), port("debris"@)],
        params: seq![
            unit_param("talus"@, 0, 90_000_000, 35_000_000, Unit::Degrees),
            float_param("strength"@, 0, 1_000_000, 500_000),
            int_param("iterations"@, 0, 1_000, 35),
        ],
        emitted_layers: Seq::empty(),
        mask_aware: false,
    }
}

impl ThermalErosion {
    /// The node's declaration.
    pub fn spec(&self) -> (r: NodeSpec)
        ensures
            r@ == thermal_node(),
            r@.defaults_admitted(),
    {
        let r: NodeSpec = NodeSpec {
            type_id: "modifier.thermal_erosion",
            category: "geology",
            tags: Vec::new(),
            inputs: vec![PortSpec::new("in"), PortSpec::optional("mask")],
            outputs: vec![
                PortSpec::new("heightfield"),
                PortSpec::new("wear"),
                PortSpec::new("debris"),
            ],
            params: vec![
                ParamSpec::number("talus", 0, 90_000_000, 35_000_000).with_unit(Unit::Degrees),
                ParamSpec::number("strength", 0, 1_000_000, 500_000),
                ParamSpec::integer("iterations", 0, 1_000, 35),
            ],
            emitted_layers: Vec::new(),
            mask_aware: false,
        };
        assert(r@ =~= thermal_node());
        r
    }
}

/// The passes asked for at the reference resolution, within bounds.
pub open spec fn base_passes_of(requested: int) -> int {
    if requested < 0 {
        0
    } else if requested > 100_000 {
        100_000
    } else {
        requested
    }
}

/// The passes to run: none where none were asked for, else what they scale to at the field's
/// resolution, and at least one.
pub open spec fn passes_of(base: int, scaled: int) -> int {
    if base <= 0 {
        0
    } else if scaled < 1 {
        1
    } else if scaled > 1_000_000 {
        1_000_000
    } else {
        scaled
    }
}

/// The heights `after` are those `before` relaxed over `passes` passes, by whatever arithmetic the
/// executable functions compute.
pub open spec fn relaxes<
    H,
    A,
    E: Fn(H, H, bool) -> Option<A>,
    T: Fn((A, A), A) -> (A, A),
    S: Fn(A) -> A,
    N: Fn(A) -> A,
    G: Fn(A, (A, A, A)) -> A,
    M: Fn(H, A) -> H,
>(
    after: Seq<H>,
    before: Seq<H>,
    grid: Grid,
    passes: nat,
    f: TalusFns<A, E, T, S, N, G, M>,
) -> bool {
    forall|m: TalusMath<H, A>| #[trigger]
        talus_math(m, f) ==> after == relaxed(m, before, grid, passes)
}

/// What erosion does with its result, as executable functions: the blend of a height with its
/// eroded height through the mask, and the material a cell lost or gained.
pub struct TapFns<F, W, D> {
    pub blend: F,
    pub wear: W,
    pub debris: D,
}

/// The fields of an erosion: the input with its height composited, what wore, and what settled.
pub open spec fn eroded<V: Copy, R: Copy, F: Fn(V, V, V) -> V, W: Fn(V, V) -> V, D: Fn(V, V) -> V>(
    out: Seq<Field<V, R>>,
    input: Field<V, R>,
    mask: Option<&Field<V, R>>,
    ends: (V, V),
    after: Seq<V>,
    f: TapFns<F, W, D>,
) -> bool {
    let before = input.layer_or_of(HEIGHT@, ends.0).cells;
    &&& out.len() == 3
    &&& composites(
        out[0],
        input,
        before,
        after,
        mask_of(input, mask, ends.1),
        ends.1,
        f.blend,
    )
    &&& exists|wear: Seq<V>, debris: Seq<V>|
        {
            &&& #[trigger] taps(out[1], input.width, input.height, input.region, wear)
            &&& #[trigger] taps(out[2], input.width, input.height, input.region, debris)
            &&& changed(wear, before, after, f.wear)
            &&& changed(debris, before, after, f.debris)
        }
}

impl ThermalErosion {
    /// The passes asked for at the reference resolution, within bounds.
    pub fn base_passes(requested: i64) -> (r: i64)
        ensures
            r == base_passes_of(requested as int),
    {
        if requested < 0 {
            0
        } else if requested > 100_000 {
            100_000
        } else {
            requested
        }
    }

    /// The passes to run, where `scaled` is what `base` comes to at the field's resolution.
    pub fn passes(base: i64, scaled: i64) -> (r: usize)
        ensures
            r == passes_of(base as int, scaled as int),
    {
        if base <= 0 {
            0
        } else if scaled < 1 {
            1
        } else if scaled > 1_000_000 {
            1_000_000
        } else {
            scaled as usize
        }
    }

    /// Relaxes the heights over `iterations` passes. Polls `cancelled` before each pass, and stops
    /// without a result when it says so.
    pub fn relax<
        H: Copy,
        A: Copy,
        E: Fn(H, H, bool) -> Option<A>,
        T: Fn((A, A), A) -> (A, A),
        S: Fn(A) -> A,
        N: Fn(A) -> A,
        G: Fn(A, (A, A, A)) -> A,
        M: Fn(H, A) -> H,
        X: Fn() -> bool,
    >(
        heights: &Vec<H>,
        grid: &Grid,
        iterations: usize,
        f: &TalusFns<A, E, T, S, N, G, M>,
        cancelled: &X,
    ) -> (r: Option<Vec<H>>)
        requires
            grid.wf(),
            heights@.len() == grid.cells(),
            talus_total(*f),
            call_requires(*cancelled, ()),
        ensures
            match r {
                Some(z) => z@.len() == grid.cells() && relaxes(
                    z@,
                    heights@,
                    *grid,
                    iterations as nat,
                    *f,
                ),
                None => iterations > 0 && call_ensures(*cancelled, (), true),
            },
            r is Some ==> iterations == 0 || call_ensures(*cancelled, (), false),
    {
        let mut z: Vec<H> = vstd::slice::slice_to_vec(heights.as_slice());
        let mut i: usize = 0;
        while i < iterations
            invariant
                grid.wf(),
                heights@.len() == grid.cells(),
                talus_total(*f),
                call_requires(*cancelled, ()),
                i <= iterations,
                i > 0 ==> call_ensures(*cancelled, (), false),
                z@.len() == grid.cells(),
                forall|m: TalusMath<H, A>| #[trigger]
                    talus_math(m, *f) ==> z@ == relaxed(m, heights@, *grid, i as nat),
            decreases iterations - i,
        {
            if cancelled() {
                return None;
            }
            z = relax_pass(&z, grid, f);
            i += 1;
        }
        Some(z)
    }

    /// Erodes the input: its height relaxes over `iterations` passes, the result is composited over
    /// the input through the mask, and what wore and what settled come beside it. `ends` is the
    /// height of a field without one, and a full mask. `None` when cancelled.
    pub fn eval<
        V: Copy,
        R: Copy,
        A: Copy,
        E: Fn(V, V, bool) -> Option<A>,
        T: Fn((A, A), A) -> (A, A),
        S: Fn(A) -> A,
        N: Fn(A) -> A,
        G: Fn(A, (A, A, A)) -> A,
        M: Fn(V, A) -> V,
        F: Fn(V, V, V) -> V,
        W: Fn(V, V) -> V,
        D: Fn(V, V) -> V,
        X: Fn() -> bool,
    >(
        input: &Field<V, R>,
        mask: Option<&Field<V, R>>,
        ends: (V, V),
        iterations: usize,
        f: &TalusFns<A, E, T, S, N, G, M>,
        finish: &TapFns<F, W, D>,
        cancelled: &X,
    ) -> (r: Option<Vec<Field<V, R>>>)
        requires
            (Grid { width: input.width, height: input.height }).wf(),
            input.wf(),
            mask matches Some(m) ==> m.wf(),
            input.layer_or_of(HEIGHT@, ends.0).cells.len() == input.width * input.height,
            talus_total(*f),
            total3(finish.blend),
            total2(finish.wear),
            total2(finish.debris),
            call_requires(*cancelled, ()),
        ensures
            r matches Some(out) ==> exists|after: Seq<V>|
                {
                    &&& #[trigger] eroded(out@, *input, mask, ends, after, *finish)
                    &&& after.len() == input.width * input.height
                    &&& relaxes(
                        after,
                        input.layer_or_of(HEIGHT@, ends.0).cells,
                        (Grid { width: input.width, height: input.height }),
                        iterations as nat,
                        *f,
                    )
                },
            r is None ==> iterations > 0 && call_ensures(*cancelled, (), true),
            r is Some ==> iterations == 0 || call_ensures(*cancelled, (), false),
    {
        let grid: Grid = Grid { width: input.width, height: input.height };
        let source: Layer<V> = input.layer_or(HEIGHT, ends.0);
        let m: Layer<V> = mask_layer(input, mask, ends.1);
        let heights: Vec<V> = match Self::relax(&source.cells, &grid, iterations, f, cancelled) {
            Some(z) => z,
            None => {
                return None;
            },
        };
        let worn: Vec<V> = changes(&source.cells, &heights, &finish.wear);
        let settled: Vec<V> = changes(&source.cells, &heights, &finish.debris);
        let ghost (wear, debris) = (worn@, settled@);
        let first: Field<V, R> = composite(input, &source.cells, &heights, &m, ends.1, &finish.blend);
        let second: Field<V, R> = byproduct_field(worn, input.width, input.height, input.region);
        let third: Field<V, R> = byproduct_field(settled, input.width, input.height, input.region);
        let out: Vec<Field<V, R>> = vec![first, second, third];
        proof {
            assert(taps(out@[1], input.width, input.height, input.region, wear));
            assert(taps(out@[2], input.width, input.height, input.region, debris));
            assert(relaxes(
                heights@,
                source@.cells,
                (Grid { width: input.width, height: input.height }),
                iterations as nat,
                *f,
            ));
        }
        let r: Option<Vec<Field<V, R>>> = Some(out);
        assert(eroded(r->0@, *input, mask, ends, heights@, *finish));
        r
    }
}

} // verus!
