//! What is read where: layers, differences, displaced cells, image taps and strokes.
use crate::erosion::{changed, composites, mask_at, mask_of};
use crate::field::{rastered, Field, Raster, HEIGHT, MASK};
use crate::flow_selector::{banded, keyed, selects};
use crate::functions::of_list;
use crate::grid::{lemma_index, Grid};
use crate::nodes::fbm::scaled;
use crate::nodes::import::{EdgePolicy, Image};
use crate::nodes::mask::masks;
use crate::nodes::warp::four_at;
use crate::shaping::{lemma_rastered_at, span_x, span_y, Span};
use crate::strokes::{base_at, composited, stroked, StrokeMath, StrokeMode};
use vstd::prelude::*;

verus! {

/// A layer given by columns and rows: the value at column `x` and row `y` is `f(x, y)`.
pub open spec fn gives<V>(layer: Raster<V>, f: spec_fn(int, int) -> V) -> bool {
    forall|x: int, y: int|
        0 <= x < layer.width && 0 <= y < layer.height ==> #[trigger] layer.at(x, y) == Some(f(x, y))
}

/// A layer holds its rows one after the other: the cell of number `c` is that of column `c` modulo
/// the width and row `c` by the width.
pub proof fn law_layers_hold_rows<V, F: Fn(usize, usize) -> V>(
    layer: Raster<V>,
    width: usize,
    height: usize,
    f: F,
    x: int,
    y: int,
)
    requires
        rastered(layer, width, height, f),
        0 <= x < width,
        0 <= y < height,
    ensures
        0 <= y * width + x < layer.cells.len(),
        call_ensures(f, (x as usize, y as usize), layer.cells[y * width + x]),
        layer.at(x, y) == Some(layer.cells[y * width + x]),
{
    lemma_rastered_at(layer, width, height, f, x, y);
    lemma_index(Grid { width, height }, x, y);
}

/// A difference along the columns reads the cells left and right of a cell in its own row, and at
/// an edge the cell itself in place of the one past it.
pub proof fn law_column_difference_reads_left_and_right<V>(
    h: Raster<V>,
    f: spec_fn(int, int) -> V,
    x: int,
    y: int,
    zero: V,
)
    requires
        gives(h, f),
        0 <= x < h.width,
        0 <= y < h.height,
    ensures
        ({
            let s = span_x(h, h.width as int, x, y, zero);
            &&& s.before == if x > 0 {
                f(x - 1, y)
            } else {
                f(x, y)
            }
            &&& s.after == if x < h.width - 1 {
                f(x + 1, y)
            } else {
                f(x, y)
            }
        }),
{
    assert(h.at(x, y) == Some(f(x, y)));
    if x > 0 {
        assert(h.at(x - 1, y) == Some(f(x - 1, y)));
    }
    if x < h.width - 1 {
        assert(h.at(x + 1, y) == Some(f(x + 1, y)));
    }
}

/// A difference along the rows reads the cells above and below a cell in its own column, and at an
/// edge the cell itself in place of the one past it. It spans two rows, one at an edge, and none in
/// a single row.
pub proof fn law_row_difference_reads_above_and_below<V>(
    h: Raster<V>,
    f: spec_fn(int, int) -> V,
    x: int,
    y: int,
    zero: V,
)
    requires
        gives(h, f),
        0 <= x < h.width,
        0 <= y < h.height <= usize::MAX,
    ensures
        ({
            let s = span_y(h, h.height as int, x, y, zero);
            &&& s.before == if y > 0 {
                f(x, y - 1)
            } else {
                f(x, y)
            }
            &&& s.after == if y < h.height - 1 {
                f(x, y + 1)
            } else {
                f(x, y)
            }
            &&& 0 < y < h.height - 1 ==> s.cells == 2
            &&& h.height > 1 && (y == 0 || y == h.height - 1) ==> s.cells == 1
            &&& h.height == 1 ==> s.cells == 0
        }),
{
    assert(h.at(x, y) == Some(f(x, y)));
    if y > 0 {
        assert(h.at(x, y - 1) == Some(f(x, y - 1)));
    }
    if y < h.height - 1 {
        assert(h.at(x, y + 1) == Some(f(x, y + 1)));
    }
}

/// A displaced cell reads the four cells round its place: its own, the one right of it, the one
/// below, and the one below right.
pub proof fn law_displaced_cell_reads_four_in_order<V>(
    h: Raster<V>,
    f: spec_fn(int, int) -> V,
    at: (int, int),
    zero: V,
)
    requires
        gives(h, f),
        0 <= at.0 < h.width - 1,
        0 <= at.1 < h.height - 1,
    ensures
        four_at(h, (h.width as int, h.height as int), at, zero) == (
            f(at.0, at.1),
            f(at.0 + 1, at.1),
            f(at.0, at.1 + 1),
            f(at.0 + 1, at.1 + 1),
        ),
{
    assert(h.at(at.0, at.1) == Some(f(at.0, at.1)));
    assert(h.at(at.0 + 1, at.1) == Some(f(at.0 + 1, at.1)));
    assert(h.at(at.0, at.1 + 1) == Some(f(at.0, at.1 + 1)));
    assert(h.at(at.0 + 1, at.1 + 1) == Some(f(at.0 + 1, at.1 + 1)));
}

/// A place past the left or the right edge reads the edge column; one past the top or the bottom
/// the edge row.
pub proof fn law_displaced_cell_holds_the_edge<V>(
    h: Raster<V>,
    f: spec_fn(int, int) -> V,
    at: (int, int),
    zero: V,
)
    requires
        gives(h, f),
        h.width > 0,
        h.height > 0,
    ensures
        ({
            let four = four_at(h, (h.width as int, h.height as int), at, zero);
            let (w, t) = (h.width as int, h.height as int);
            &&& at.0 < 0 && 0 <= at.1 < t ==> four.0 == f(0, at.1)
            &&& at.0 >= w && 0 <= at.1 < t ==> four.0 == f(w - 1, at.1) && four.1 == f(w - 1, at.1)
            &&& at.1 < 0 && 0 <= at.0 < w ==> four.0 == f(at.0, 0)
            &&& at.1 >= t && 0 <= at.0 < w ==> four.0 == f(at.0, t - 1) && four.2 == f(at.0, t - 1)
            &&& at.0 == w - 1 && 0 <= at.1 < t ==> four.0 == four.1
            &&& at.1 == t - 1 && 0 <= at.0 < w ==> four.0 == four.2
        }),
{
    let (w, t) = (h.width as int, h.height as int);
    if 0 <= at.1 < t {
        assert(h.at(0, at.1) == Some(f(0, at.1)));
        assert(h.at(w - 1, at.1) == Some(f(w - 1, at.1)));
    }
    if 0 <= at.0 < w {
        assert(h.at(at.0, 0) == Some(f(at.0, 0)));
        assert(h.at(at.0, t - 1) == Some(f(at.0, t - 1)));
    }
}

/// The four taps of an image are those of a pixel, of the one right of it, of the one below, and of
/// the one below right, whatever the edge does.
pub proof fn law_image_taps_in_order<V>(
    image: Image<V>,
    f: spec_fn(int, int) -> V,
    x: int,
    y: int,
    edge: EdgePolicy,
    zero: V,
)
    requires
        forall|i: int, j: int|
            0 <= i < image.width && 0 <= j < image.height ==> #[trigger] f(i, j)
                == image.data@[j * image.width + i],
        0 <= x < image.width - 1,
        0 <= y < image.height - 1,
    ensures
        image.taps(x, y, edge, zero) == (f(x, y), f(x + 1, y), f(x, y + 1), f(x + 1, y + 1)),
{
    crate::nodes::import::law_edges_agree_inside(image, x, y, edge, zero);
    crate::nodes::import::law_edges_agree_inside(image, x + 1, y, edge, zero);
    crate::nodes::import::law_edges_agree_inside(image, x, y + 1, edge, zero);
    crate::nodes::import::law_edges_agree_inside(image, x + 1, y + 1, edge, zero);
    assert(f(x, y) == image.data@[y * image.width + x]);
    assert(f(x + 1, y) == image.data@[y * image.width + (x + 1)]);
    assert(f(x, y + 1) == image.data@[(y + 1) * image.width + x]);
    assert(f(x + 1, y + 1) == image.data@[(y + 1) * image.width + (x + 1)]);
}

/// An extended edge reads the nearest pixel of the image.
pub proof fn law_extended_edge_reads_the_nearest_pixel<V>(image: Image<V>, x: int, y: int, zero: V)
    requires
        image.width > 0,
        image.height > 0,
    ensures
        ({
            let (w, t) = (image.width as int, image.height as int);
            let (px, py) = (
                if x < 0 {
                    0
                } else if x > w - 1 {
                    w - 1
                } else {
                    x
                },
                if y < 0 {
                    0
                } else if y > t - 1 {
                    t - 1
                } else {
                    y
                },
            );
            image.tap(x, y, EdgePolicy::Extend, zero) == image.data@[py * w + px]
        }),
{
}

/// Strokes act one after the other, in their order: along any list of values, from what the
/// composite starts from, in which each is the one before as the next stroke leaves it, the value
/// after all strokes is what the end makes of the last.
pub proof fn law_strokes_act_in_order<V, A>(
    m: StrokeMath<V, A>,
    modes: Seq<StrokeMode>,
    base: V,
    x: usize,
    y: usize,
    values: Seq<V>,
)
    requires
        values.len() == modes.len() + 1,
        modes.len() <= usize::MAX,
        values[0] == (m.begin)(base),
        forall|i: int|
            0 <= i < modes.len() ==> #[trigger] values[i + 1] == match (m.cover)(
                i as usize,
                x,
                y,
            ) {
                Some(a) => match modes[i] {
                    StrokeMode::Paint => (m.paint)(values[i], a),
                    StrokeMode::Erase => (m.erase)(values[i], a),
                },
                None => values[i],
            },
    ensures
        composited(m, modes, base, x, y) == (m.end)(values.last()),
{
    lemma_strokes(m, modes, base, x, y, values, modes.len() as int);
}

proof fn lemma_strokes<V, A>(
    m: StrokeMath<V, A>,
    modes: Seq<StrokeMode>,
    base: V,
    x: usize,
    y: usize,
    values: Seq<V>,
    n: int,
)
    requires
        values.len() == modes.len() + 1,
        values[0] == (m.begin)(base),
        forall|i: int|
            0 <= i < modes.len() ==> #[trigger] values[i + 1] == match (m.cover)(
                i as usize,
                x,
                y,
            ) {
                Some(a) => match modes[i] {
                    StrokeMode::Paint => (m.paint)(values[i], a),
                    StrokeMode::Erase => (m.erase)(values[i], a),
                },
                None => values[i],
            },
        0 <= n <= modes.len(),
    ensures
        stroked(m, modes, base, x, y, n) == values[n],
    decreases n,
{
    if n > 0 {
        lemma_strokes(m, modes, base, x, y, values, n - 1);
        assert(values[(n - 1) + 1] == values[n]);
    }
}

/// Strokes start from the height of the base there, and from nothing without one.
pub proof fn law_strokes_start_from_the_base<V, R>(
    base: &Field<V, R>,
    f: spec_fn(int, int) -> V,
    zero: V,
    x: int,
    y: int,
)
    requires
        base.layers().contains_key(HEIGHT@),
        gives(base.layers()[HEIGHT@], f),
        0 <= x < base.layers()[HEIGHT@].width,
        0 <= y < base.layers()[HEIGHT@].height,
    ensures
        base_at(Some(base), zero, x, y) == f(x, y),
        base_at(None::<&Field<V, R>>, zero, x, y) == zero,
{
    assert(base.layers()[HEIGHT@].at(x, y) == Some(f(x, y)));
}

/// A cell that is selected whole takes its new value exactly, where blending through a full mask
/// takes it.
pub proof fn law_selected_cell_takes_its_new_value<B, V, R, F: Fn(B, B, V) -> V>(
    r: Field<V, R>,
    input: Field<V, R>,
    before: Seq<B>,
    after: Seq<B>,
    mask: Raster<V>,
    one: V,
    blend: F,
    taken: spec_fn(B) -> V,
    c: int,
)
    requires
        composites(r, input, before, after, mask, one, blend),
        0 <= c < input.width * input.height,
        mask.at(c % (input.width as int), c / (input.width as int)) == Some(one) || mask.at(
            c % (input.width as int),
            c / (input.width as int),
        ) is None,
        forall|b: B, a: B, v: V| #[trigger]
            call_ensures(blend, (b, a, one), v) ==> v == taken(a),
    ensures
        r.layers()[HEIGHT@].cells[c] == taken(after[c]),
{
    let grid = Grid { width: input.width, height: input.height };
    assert(mask_at(mask, grid, one, c) == one);
}

/// The mask at a cell is read at the cell's own column and row: a mask layer given by columns and
/// rows masks each cell by its value there.
pub proof fn law_mask_is_read_at_the_cell<V, R>(
    input: Field<V, R>,
    mask: &Field<V, R>,
    one: V,
    f: spec_fn(int, int) -> V,
    x: int,
    y: int,
)
    requires
        0 <= x < input.width,
        0 <= y < input.height,
    ensures
        ({
            let grid = Grid { width: input.width, height: input.height };
            let c = y * input.width + x;
            let wired = mask_at(mask_of(input, Some(mask), one), grid, one, c);
            let own = mask_at(mask_of(input, None, one), grid, one, c);
            &&& mask.layers().contains_key(HEIGHT@) && gives(mask.layers()[HEIGHT@], f) && x
                < mask.layers()[HEIGHT@].width && y < mask.layers()[HEIGHT@].height ==> wired == f(
                x,
                y,
            )
            &&& input.layers().contains_key(MASK@) && gives(input.layers()[MASK@], f) && x
                < input.layers()[MASK@].width && y < input.layers()[MASK@].height ==> own == f(
                x,
                y,
            )
        }),
{
    let grid = Grid { width: input.width, height: input.height };
    lemma_index(grid, x, y);
    if mask.layers().contains_key(HEIGHT@) && gives(mask.layers()[HEIGHT@], f) && x
        < mask.layers()[HEIGHT@].width && y < mask.layers()[HEIGHT@].height {
        assert(mask.layers()[HEIGHT@].at(x, y) == Some(f(x, y)));
    }
    if input.layers().contains_key(MASK@) && gives(input.layers()[MASK@], f) && x
        < input.layers()[MASK@].width && y < input.layers()[MASK@].height {
        assert(input.layers()[MASK@].at(x, y) == Some(f(x, y)));
    }
}

/// What changed is told by the value before and the value after, in this order: where a change is
/// the difference of the two, it is the new value without the old one.
pub proof fn law_change_is_from_before_to_after<B, V, F: Fn(B, B) -> V>(
    values: Seq<V>,
    before: Seq<B>,
    after: Seq<B>,
    change: F,
    worth: spec_fn(B) -> real,
    v: spec_fn(V) -> real,
    c: int,
)
    requires
        changed(values, before, after, change),
        0 <= c < before.len(),
        forall|b: B, a: B, r: V| #[trigger]
            call_ensures(change, (b, a), r) ==> v(r) == worth(a) - worth(b),
    ensures
        values.len() == before.len(),
        v(values[c]) == worth(after[c]) - worth(before[c]),
{
    assert(call_ensures(change, (before[c], after[c]), values[c]));
}

/// A mask of the height reads only the cell itself, and a mask of the slope only the cells beside
/// it: two layers that agree there have the same masks there.
pub proof fn law_mask_reads_round_the_cell<V, S: Fn(Span<V>, Span<V>) -> V, T: Fn(V) -> V>(
    h: Raster<V>,
    g: Raster<V>,
    zero: V,
    sloping: bool,
    slope: S,
    step: T,
    x: int,
    y: int,
    v: V,
)
    requires
        h.width == g.width,
        h.height == g.height,
        0 <= x < h.width,
        0 <= y < h.height,
        !sloping ==> h.at(x, y) == g.at(x, y),
        sloping ==> forall|i: int, j: int|
            (i == x && -1 <= j - y <= 1) || (j == y && -1 <= i - x <= 1) ==> #[trigger] h.at(i, j)
                == g.at(i, j),
    ensures
        masks(h, h.width as int, h.height as int, zero, sloping, slope, step, x, y, v) == masks(
            g,
            h.width as int,
            h.height as int,
            zero,
            sloping,
            slope,
            step,
            x,
            y,
            v,
        ),
{
    if sloping {
        let (w, t) = (h.width as int, h.height as int);
        assert(h.at(x, y) == g.at(x, y));
        assert(h.at(x - 1, y) == g.at(x - 1, y));
        assert(h.at(x + 1, y) == g.at(x + 1, y));
        assert(h.at(x, y - 1) == g.at(x, y - 1));
        assert(h.at(x, y + 1) == g.at(x, y + 1));
        assert(span_x(h, w, x, y, zero) == span_x(g, w, x, y, zero));
        assert(span_y(h, t, x, y, zero) == span_y(g, t, x, y, zero));
    }
}

/// A selection bands the stretched flow cell by cell: where stretching gives cell `c` the value
/// `stretched(acc, c)`, and the band of a value is `band_of` of it, the selection there is the one
/// of the other.
pub proof fn law_selection_bands_the_stretched_flow<
    T,
    V,
    F: Fn(&Vec<T>) -> Vec<V>,
    K: Fn(V) -> V,
>(
    out: Seq<V>,
    acc: Seq<T>,
    normalize: F,
    band: K,
    stretched: spec_fn(Seq<T>, int) -> V,
    band_of: spec_fn(V) -> V,
    c: int,
)
    requires
        selects(out, acc, normalize, band),
        forall|a: &Vec<T>, r: Vec<V>| #[trigger]
            call_ensures(normalize, (a,), r) ==> r@.len() == a@.len() && forall|b: int|
                0 <= b < r@.len() ==> #[trigger] r@[b] == stretched(a@, b),
        forall|v: V, r: V| #[trigger] call_ensures(band, (v,), r) ==> r == band_of(v),
        0 <= c < acc.len(),
    ensures
        out.len() == acc.len(),
        out[c] == band_of(stretched(acc, c)),
{
    let flow = choose|flow: Vec<V>| #[trigger]
        of_list(normalize, acc, flow) && banded(out, flow@, band);
    let a = choose|a: &Vec<T>| a@ == acc && #[trigger] call_ensures(normalize, (a,), flow);
    assert(call_ensures(normalize, (a,), flow));
    assert(call_ensures(band, (flow@[c],), out[c]));
}

/// The order keys of a layer are those of its own cells.
pub proof fn law_keys_are_those_of_the_cells<V, T: Fn(V) -> i32>(
    heights: Seq<V>,
    key: T,
    keys: Seq<i32>,
    key_of: spec_fn(V) -> i32,
    c: int,
)
    requires
        keyed(heights, key, keys),
        forall|v: V, r: i32| #[trigger] call_ensures(key, (v,), r) ==> r == key_of(v),
        0 <= c < heights.len(),
    ensures
        keys.len() == heights.len(),
        keys[c] == key_of(heights[c]),
{
    assert(call_ensures(key, (heights[c],), keys[c]));
}

/// Fractal noise is scaled once, after its shape, and only where it is scaled at all.
pub proof fn law_noise_is_scaled_once<V, F: Fn(usize, usize) -> V, S: Fn(V) -> V>(
    shape: F,
    scale: &S,
    shape_of: spec_fn(usize, usize) -> V,
    scale_of: spec_fn(V) -> V,
    x: usize,
    y: usize,
    v: V,
)
    requires
        forall|i: usize, j: usize, r: V| #[trigger]
            call_ensures(shape, (i, j), r) ==> r == shape_of(i, j),
        forall|a: V, r: V| #[trigger] call_ensures(*scale, (a,), r) ==> r == scale_of(a),
    ensures
        scaled(shape, Some(scale), x, y, v) ==> v == scale_of(shape_of(x, y)),
        scaled(shape, None::<&S>, x, y, v) ==> v == shape_of(x, y),
{
    if scaled(shape, Some(scale), x, y, v) {
        let raw = choose|raw: V|
            call_ensures(shape, (x, y), raw) && #[trigger] call_ensures(*scale, (raw,), v);
        assert(call_ensures(shape, (x, y), raw));
    }
}

} // verus!
