//! What the per-cell nodes share: reading a layer with a default, writing one layer of a field and
//! passing the others through, and clamped neighbours.
use crate::field::{rastered, Field, Layer, Raster, HEIGHT, MASK};
use crate::functions::{accepts_cells, of_list, total1, total2, total_list};
use crate::grid::{lemma_index, Grid};
use crate::text::same_text;
use vstd::prelude::*;

verus! {

/// The value of a layer at `(x, y)`, or `default` past its edge.
pub open spec fn value_at<V>(layer: Raster<V>, x: int, y: int, default: V) -> V {
    match layer.at(x, y) {
        Some(v) => v,
        None => default,
    }
}

/// The value of a layer at `(x, y)`, or `default` past its edge.
pub fn value_or<V: Copy>(layer: &Layer<V>, x: usize, y: usize, default: V) -> (r: V)
    requires
        layer@.wf(),
    ensures
        r == value_at(layer@, x as int, y as int, default),
{
    match layer.get(x, y) {
        Some(v) => v,
        None => default,
    }
}

/// `out` is `input` with a layer of its size under `name`; every other layer is as it was.
pub open spec fn relayered<V, R>(out: Field<V, R>, input: Field<V, R>, name: Seq<char>) -> bool {
    &&& out.wf()
    &&& out.width == input.width
    &&& out.height == input.height
    &&& out.region == input.region
    &&& out.layers().contains_key(name)
    &&& out.layers() == input.layers().insert(name, out.layers()[name])
    &&& sized(out.layers()[name], input.width, input.height)
}

/// A layer of the given size.
pub open spec fn sized<V>(layer: Raster<V>, width: usize, height: usize) -> bool {
    layer.width == width && layer.height == height && layer.wf()
}

/// A layer computed cell by cell holds at `(x, y)` what was computed there.
pub proof fn lemma_rastered_at<V, F: Fn(usize, usize) -> V>(
    r: Raster<V>,
    width: usize,
    height: usize,
    f: F,
    x: int,
    y: int,
)
    requires
        rastered(r, width, height, f),
        0 <= x < width,
        0 <= y < height,
    ensures
        r.at(x, y) is Some,
        call_ensures(f, (x as usize, y as usize), r.at(x, y)->0),
{
    let grid = Grid { width, height };
    lemma_index(grid, x, y);
    let i = grid.index(x, y);
    assert(call_ensures(
        f,
        ((i % (width as int)) as usize, (i / (width as int)) as usize),
        r.cells[i],
    ));
}

/// A field whose height is computed cell by cell.
pub fn generate<V: Copy, R: Copy, F: Fn(usize, usize) -> V>(
    width: usize,
    height: usize,
    region: R,
    cell: &F,
) -> (r: Field<V, R>)
    requires
        width * height <= usize::MAX,
        accepts_cells(*cell, width, height),
    ensures
        r.wf(),
        r.width == width,
        r.height == height,
        r.region == region,
        r.layers().dom() == set![HEIGHT@],
        rastered(r.layers()[HEIGHT@], width, height, *cell),
{
    let mut out: Field<V, R> = Field::new(width, height, region);
    out.set_layer(HEIGHT, Layer::from_fn(width, height, cell));
    assert(out.layers().dom() =~= set![HEIGHT@]);
    out
}

/// The input with every height replaced by what `cell` makes of it. `zero` is the height of a field
/// without one.
pub fn select<V: Copy, R: Copy, F: Fn(V) -> V>(input: &Field<V, R>, zero: V, cell: &F) -> (r: Field<
    V,
    R,
>)
    requires
        input.wf(),
        total1(*cell),
    ensures
        relayered(r, *input, HEIGHT@),
        forall|x: int, y: int|
            0 <= x < input.width && 0 <= y < input.height ==> call_ensures(
                *cell,
                (value_at(input.layer_or_of(HEIGHT@, zero), x, y, zero),),
                (#[trigger] r.layers()[HEIGHT@].at(x, y))->0,
            ),
{
    let h: Layer<V> = input.layer_or(HEIGHT, zero);
    let at = |x: usize, y: usize| -> (v: V)
        ensures
            call_ensures(*cell, (value_at(h@, x as int, y as int, zero),), v),
        { cell(value_or(&h, x, y, zero)) };
    let r: Field<V, R> = input.reshaped(HEIGHT, &at);
    proof {
        assert forall|x: int, y: int|
            0 <= x < input.width && 0 <= y < input.height implies call_ensures(
            *cell,
            (value_at(input.layer_or_of(HEIGHT@, zero), x, y, zero),),
            (#[trigger] r.layers()[HEIGHT@].at(x, y))->0,
        ) by {
            lemma_rastered_at(r.layers()[HEIGHT@], input.width, input.height, at, x, y);
        }
    }
    r
}

/// The input with every height replaced by what `cell` makes of it and of its own mask layer.
/// `ends` is the height of a field without one, and a full mask.
pub fn masked<V: Copy, R: Copy, F: Fn(V, V) -> V>(
    input: &Field<V, R>,
    ends: (V, V),
    cell: &F,
) -> (r: Field<V, R>)
    requires
        input.wf(),
        total2(*cell),
    ensures
        relayered(r, *input, HEIGHT@),
        forall|x: int, y: int|
            0 <= x < input.width && 0 <= y < input.height ==> call_ensures(
                *cell,
                (
                    value_at(input.layer_or_of(HEIGHT@, ends.0), x, y, ends.0),
                    value_at(input.layer_or_of(MASK@, ends.1), x, y, ends.1),
                ),
                (#[trigger] r.layers()[HEIGHT@].at(x, y))->0,
            ),
{
    let h: Layer<V> = input.layer_or(HEIGHT, ends.0);
    let m: Layer<V> = input.layer_or(MASK, ends.1);
    let at = |x: usize, y: usize| -> (v: V)
        ensures
            call_ensures(
                *cell,
                (
                    value_at(h@, x as int, y as int, ends.0),
                    value_at(m@, x as int, y as int, ends.1),
                ),
                v,
            ),
        { cell(value_or(&h, x, y, ends.0), value_or(&m, x, y, ends.1)) };
    let r: Field<V, R> = input.reshaped(HEIGHT, &at);
    proof {
        assert forall|x: int, y: int|
            0 <= x < input.width && 0 <= y < input.height implies call_ensures(
            *cell,
            (
                value_at(input.layer_or_of(HEIGHT@, ends.0), x, y, ends.0),
                value_at(input.layer_or_of(MASK@, ends.1), x, y, ends.1),
            ),
            (#[trigger] r.layers()[HEIGHT@].at(x, y))->0,
        ) by {
            lemma_rastered_at(r.layers()[HEIGHT@], input.width, input.height, at, x, y);
        }
    }
    r
}

/// The input with the given heights.
pub fn with_heights<V: Copy, R: Copy>(input: &Field<V, R>, heights: Vec<V>) -> (r: Field<V, R>)
    requires
        input.wf(),
        heights@.len() == input.width * input.height,
    ensures
        relayered(r, *input, HEIGHT@),
        r.layers()[HEIGHT@].cells == heights@,
{
    let mut out: Field<V, R> = input.copy();
    out.set_layer(HEIGHT, Layer { width: input.width, height: input.height, cells: heights });
    out
}

/// Every value, cell by cell.
pub fn map_cells<A: Copy, B, F: Fn(A) -> B>(values: &Vec<A>, cell: &F) -> (r: Vec<B>)
    requires
        total1(*cell),
    ensures
        r@.len() == values@.len(),
        forall|c: int|
            0 <= c < r@.len() ==> call_ensures(*cell, (values@[c],), #[trigger] r@[c]),
{
    let mut out: Vec<B> = Vec::with_capacity(values.len());
    let mut c: usize = 0;
    while c < values.len()
        invariant
            total1(*cell),
            c <= values@.len(),
            out@.len() == c,
            forall|b: int|
                0 <= b < c ==> call_ensures(*cell, (values@[b],), #[trigger] out@[b]),
        decreases values.len() - c,
    {
        let v: B = cell(values[c]);
        out.push(v);
        c += 1;
    }
    out
}

/// The coordinate before `x`, or `x` at the edge.
pub open spec fn clamped_before(x: int) -> int {
    if x > 0 {
        x - 1
    } else {
        x
    }
}

/// The coordinate after `x`, or `x` at the edge.
pub open spec fn clamped_after(x: int, size: int) -> int {
    if x + 1 < size {
        x + 1
    } else {
        x
    }
}

/// What a central difference reads along one axis: the values on either side, each at the edge the
/// cell's own, and how many cells lie between them.
pub struct Span<V> {
    pub before: V,
    pub after: V,
    pub cells: usize,
}

/// What a central difference at `(x, y)` reads along the columns.
pub open spec fn span_x<V>(h: Raster<V>, width: int, x: int, y: int, zero: V) -> Span<V> {
    let (a, b) = (clamped_before(x), clamped_after(x, width));
    Span {
        before: value_at(h, a, y, zero),
        after: value_at(h, b, y, zero),
        cells: (b - a) as usize,
    }
}

/// What a central difference at `(x, y)` reads along the rows.
pub open spec fn span_y<V>(h: Raster<V>, height: int, x: int, y: int, zero: V) -> Span<V> {
    let (a, b) = (clamped_before(y), clamped_after(y, height));
    Span {
        before: value_at(h, x, a, zero),
        after: value_at(h, x, b, zero),
        cells: (b - a) as usize,
    }
}

/// What a central difference at `(x, y)` reads.
pub fn spans<V: Copy>(
    h: &Layer<V>,
    width: usize,
    height: usize,
    x: usize,
    y: usize,
    zero: V,
) -> (r: (Span<V>, Span<V>))
    requires
        h@.wf(),
        x < width,
        y < height,
    ensures
        r.0 == span_x(h@, width as int, x as int, y as int, zero),
        r.1 == span_y(h@, height as int, x as int, y as int, zero),
{
    let (xm, ym): (usize, usize) = (
        if x > 0 {
            x - 1
        } else {
            x
        },
        if y > 0 {
            y - 1
        } else {
            y
        },
    );
    let (xp, yp): (usize, usize) = (
        if x < width - 1 {
            x + 1
        } else {
            x
        },
        if y < height - 1 {
            y + 1
        } else {
            y
        },
    );
    (
        Span {
            before: value_or(h, xm, y, zero),
            after: value_or(h, xp, y, zero),
            cells: xp - xm,
        },
        Span {
            before: value_or(h, x, ym, zero),
            after: value_or(h, x, yp, zero),
            cells: yp - ym,
        },
    )
}

/// Away from the edge a central difference spans two cells; at an edge one, on its inner side; and
/// none where the field is one cell across.
pub proof fn law_spans_stay_on_the_field<V>(h: Raster<V>, width: int, x: int, y: int, zero: V)
    requires
        0 <= x < width,
    ensures
        0 <= clamped_before(x) <= x <= clamped_after(x, width) < width,
        0 < x < width - 1 ==> span_x(h, width, x, y, zero).cells == 2,
        width > 1 && (x == 0 || x == width - 1) ==> span_x(h, width, x, y, zero).cells == 1,
        width == 1 ==> span_x(h, width, x, y, zero).cells == 0,
{
}

/// A node that shapes one layer leaves every other layer of its input as it was.
pub proof fn law_other_layers_pass_through<V, R>(
    out: Field<V, R>,
    input: Field<V, R>,
    name: Seq<char>,
    other: Seq<char>,
)
    requires
        relayered(out, input, name),
        other != name,
    ensures
        out.layers().contains_key(other) <==> input.layers().contains_key(other),
        input.layers().contains_key(other) ==> out.layers()[other] == input.layers()[other],
{
}

/// A field without a height reads as flat.
pub proof fn law_missing_height_is_flat<V, R>(input: Field<V, R>, zero: V, x: int, y: int)
    requires
        !input.layers().contains_key(HEIGHT@),
    ensures
        value_at(input.layer_or_of(HEIGHT@, zero), x, y, zero) == zero,
{
    if 0 <= x < input.width && 0 <= y < input.height {
        let grid = Grid { width: input.width, height: input.height };
        lemma_index(grid, x, y);
    }
}

/// Whether a node measures against the fixed range rather than the range its input fills, which is
/// the default.
pub open spec fn fixed_range(range: Option<&str>) -> bool {
    range matches Some(r) && r@ == "fixed"@
}

/// Whether a node measures against the fixed range.
pub fn is_fixed_range(range: Option<&str>) -> (r: bool)
    ensures
        r == fixed_range(range),
{
    match range {
        Some(r) => same_text(r, "fixed"),
        None => false,
    }
}

/// `s` is the range a node measures against: the fixed one, or one `measure` reads off the heights.
pub open spec fn measured<V, S, M: Fn(&Vec<V>) -> S>(
    range: Option<&str>,
    fixed: S,
    measure: M,
    heights: Seq<V>,
    s: S,
) -> bool {
    if fixed_range(range) {
        s == fixed
    } else {
        of_list(measure, heights, s)
    }
}

/// The range a node measures against.
pub fn measure_range<V, S, M: Fn(&Vec<V>) -> S>(
    range: Option<&str>,
    fixed: S,
    measure: &M,
    heights: &Vec<V>,
) -> (s: S)
    requires
        total_list(*measure),
    ensures
        measured(range, fixed, *measure, heights@, s),
{
    if is_fixed_range(range) {
        fixed
    } else {
        let s: S = measure(heights);
        assert(of_list(*measure, heights@, s));
        s
    }
}

} // verus!
