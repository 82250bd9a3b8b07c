//! What the erosion nodes share: the mask rule, the composite through it, and the byproduct taps.
use crate::field::{uniform, Field, Layer, Raster, HEIGHT, MASK};
use crate::functions::{total2, total3};
use crate::grid::{lemma_cell, Grid};
use crate::shaping::relayered;
use vstd::prelude::*;

verus! {

/// The mask of a node: the height of an explicit mask input wins; else the input's own mask layer;
/// else `one` everywhere.
pub open spec fn mask_of<V, R>(input: Field<V, R>, mask: Option<&Field<V, R>>, one: V) -> Raster<V> {
    match mask {
        Some(m) => m.layer_or_of(HEIGHT@, one),
        None => input.layer_or_of(MASK@, one),
    }
}

/// The mask of a node.
pub fn mask_layer<V: Copy, R: Copy>(
    input: &Field<V, R>,
    mask: Option<&Field<V, R>>,
    one: V,
) -> (r: Layer<V>)
    requires
        input.wf(),
        mask matches Some(m) ==> m.wf(),
    ensures
        r@ == mask_of(*input, mask, one),
        r@.wf(),
{
    match mask {
        Some(m) => m.layer_or(HEIGHT, one),
        None => input.layer_or(MASK, one),
    }
}

/// The mask's value at cell `c`, or `one` past its edge.
pub open spec fn mask_at<V>(mask: Raster<V>, grid: Grid, one: V, c: int) -> V {
    match mask.at(grid.col(c), grid.row(c)) {
        Some(m) => m,
        None => one,
    }
}

/// `r` is the input with its height composited: every cell is `blend` of its values before and
/// after and of the mask there. The other layers pass through.
pub open spec fn composites<B, V, R, F: Fn(B, B, V) -> V>(
    r: Field<V, R>,
    input: Field<V, R>,
    before: Seq<B>,
    after: Seq<B>,
    mask: Raster<V>,
    one: V,
    blend: F,
) -> bool {
    let grid = Grid { width: input.width, height: input.height };
    &&& relayered(r, input, HEIGHT@)
    &&& forall|c: int|
        0 <= c < grid.cells() ==> call_ensures(
            blend,
            (before[c], after[c], mask_at(mask, grid, one, c)),
            #[trigger] r.layers()[HEIGHT@].cells[c],
        )
}

/// Composites the `after` values over the `before` ones through the mask, as the height of the
/// input; its other layers pass through.
pub fn composite<B: Copy, V: Copy, R: Copy, F: Fn(B, B, V) -> V>(
    input: &Field<V, R>,
    before: &Vec<B>,
    after: &Vec<B>,
    mask: &Layer<V>,
    one: V,
    blend: &F,
) -> (r: Field<V, R>)
    requires
        input.wf(),
        before@.len() == input.width * input.height,
        after@.len() == input.width * input.height,
        mask@.wf(),
        total3(*blend),
    ensures
        composites(r, *input, before@, after@, mask@, one, *blend),
{
    let grid: Grid = Grid { width: input.width, height: input.height };
    let n: usize = grid.len();
    let mut cells: Vec<V> = Vec::with_capacity(n);
    let mut c: usize = 0;
    while c < n
        invariant
            grid == (Grid { width: input.width, height: input.height }),
            n == grid.cells(),
            before@.len() == n,
            after@.len() == n,
            mask@.wf(),
            total3(*blend),
            c <= n,
            cells@.len() == c,
            forall|b: int|
                0 <= b < c ==> call_ensures(
                    *blend,
                    (before@[b], after@[b], mask_at(mask@, grid, one, b)),
                    #[trigger] cells@[b],
                ),
        decreases n - c,
    {
        proof {
            lemma_cell(grid, c as int);
        }
        let m: V = match mask.get(c % input.width, c / input.width) {
            Some(m) => m,
            None => one,
        };
        let v: V = blend(before[c], after[c], m);
        cells.push(v);
        c += 1;
    }
    let mut out: Field<V, R> = input.copy();
    out.set_layer(HEIGHT, Layer { width: input.width, height: input.height, cells });
    out
}

/// A byproduct tap: a field of the given size whose height, its only layer, is the given values.
pub open spec fn taps<V, R>(
    f: Field<V, R>,
    width: usize,
    height: usize,
    region: R,
    values: Seq<V>,
) -> bool {
    &&& f.wf()
    &&& f.width == width
    &&& f.height == height
    &&& f.region == region
    &&& f.layers() == Map::<Seq<char>, Raster<V>>::empty().insert(
        HEIGHT@,
        Raster { width: width as nat, height: height as nat, cells: values },
    )
}

/// A byproduct tap: a field whose height is the given values.
pub fn byproduct_field<V: Copy, R: Copy>(
    values: Vec<V>,
    width: usize,
    height: usize,
    region: R,
) -> (r: Field<V, R>)
    requires
        width * height <= usize::MAX,
        values@.len() == width * height,
    ensures
        taps(r, width, height, region, values@),
{
    let mut out: Field<V, R> = Field::new(width, height, region);
    out.set_layer(HEIGHT, Layer { width, height, cells: values });
    out
}

/// Every value is `change` of its cell's values before and after.
pub open spec fn changed<B, V, F: Fn(B, B) -> V>(
    values: Seq<V>,
    before: Seq<B>,
    after: Seq<B>,
    change: F,
) -> bool {
    &&& values.len() == before.len()
    &&& forall|c: int|
        0 <= c < values.len() ==> call_ensures(
            change,
            (before[c], after[c]),
            #[trigger] values[c],
        )
}

/// What each cell changed by, cell by cell: `change` of its value before and after.
pub fn changes<B: Copy, V, F: Fn(B, B) -> V>(
    before: &Vec<B>,
    after: &Vec<B>,
    change: &F,
) -> (r: Vec<V>)
    requires
        before@.len() == after@.len(),
        total2(*change),
    ensures
        changed(r@, before@, after@, *change),
{
    let mut out: Vec<V> = Vec::with_capacity(before.len());
    let mut c: usize = 0;
    while c < before.len()
        invariant
            before@.len() == after@.len(),
            total2(*change),
            c <= before@.len(),
            out@.len() == c,
            forall|b: int|
                0 <= b < c ==> call_ensures(
                    *change,
                    (before@[b], after@[b]),
                    #[trigger] out@[b],
                ),
        decreases before.len() - c,
    {
        let v: V = change(before[c], after[c]);
        out.push(v);
        c += 1;
    }
    out
}

/// An explicit mask input hides the input's own mask layer, even where it has no height of its own.
pub proof fn law_explicit_mask_wins<V, R>(
    input: Field<V, R>,
    other: Field<V, R>,
    mask: &Field<V, R>,
    one: V,
)
    ensures
        mask_of(input, Some(mask), one) == mask_of(other, Some(mask), one),
        mask_of(input, Some(mask), one) == mask.layer_or_of(HEIGHT@, one),
{
}

/// Without a mask input and without a mask layer, the mask is `one` everywhere.
pub proof fn law_no_mask_selects_everywhere<V, R>(input: Field<V, R>, one: V)
    requires
        !input.layers().contains_key(MASK@),
    ensures
        mask_of(input, None, one) == uniform(input.width as nat, input.height as nat, one),
{
}

/// A cell that is masked out keeps its value exactly, where blending through no mask keeps it.
pub proof fn law_masked_out_cell_is_kept<B, V, R, F: Fn(B, B, V) -> V>(
    r: Field<V, R>,
    input: Field<V, R>,
    before: Seq<B>,
    after: Seq<B>,
    mask: Raster<V>,
    one: V,
    none: V,
    blend: F,
    kept: spec_fn(B) -> V,
    c: int,
)
    requires
        composites(r, input, before, after, mask, one, blend),
        0 <= c < input.width * input.height,
        mask_at(mask, (Grid { width: input.width, height: input.height }), one, c) == none,
        forall|b: B, a: B, v: V| #[trigger]
            call_ensures(blend, (b, a, none), v) ==> v == kept(b),
    ensures
        r.layers()[HEIGHT@].cells[c] == kept(before[c]),
{
    assert(call_ensures(
        blend,
        (before[c], after[c], none),
        r.layers()[HEIGHT@].cells[c],
    ));
}

} // verus!
