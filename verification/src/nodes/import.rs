//! The heightmap import: a decoded image, placed in the world and resampled.
use crate::field::{uniform, Field, Layer, HEIGHT};
use crate::functions::{accepts_cells, total2};
use crate::grid::{lemma_index, Grid};
use crate::node::{
    enum_param, float_param, param, port, texts, unit_param, Kind, Node, NodeGroup, NodeSpec,
    ParamKind, ParamSpec, ParamValue, PortSpec, Unit, Value,
};
use crate::shaping::{generate, lemma_rastered_at};
use crate::text::{blank, is_space, same_text};
use crate::water_sim::Sided;
use vstd::prelude::*;

verus! {

/// Import generator: no inputs, one output.
#[derive(Clone, Copy, Debug)]
pub struct Import;

/// What the node declares.
pub open spec fn import_node() -> Node {
    Node {
        type_id: "generator.import"@,
        category: "generator"@,
        tags: Seq::empty(),
        inputs: Seq::empty(),
        outputs: seq![port("out"@)],
        params: seq![
            param("path"@, Kind::Path, Value::Text(""@)),
            float_param("offset_x"@, -1_000_000, 1_000_000, 0),
            float_param("offset_y"@, -1_000_000, 1_000_000, 0),
            unit_param("rotation"@, 0, 360_000_000, 0, Unit::Degrees),
            float_param("scale"@, 50_000, 8_000_000, 1_000_000),
            enum_param("edge"@, seq!["extend"@, "zero"@, "wrap"@], "extend"@),
        ],
        emitted_layers: Seq::empty(),
        mask_aware: false,
    }
}

impl Import {
    /// The node's declaration.
    pub fn spec(&self) -> (r: NodeSpec)
        ensures
            r@ == import_node(),
            r@.defaults_admitted(),
    {
        let options: Vec<&'static str> = vec!["extend", "zero", "wrap"];
        assert(texts(options@) =~= seq!["extend"@, "zero"@, "wrap"@]);
        assert(texts(options@)[0] == "extend"@);
        let r: NodeSpec = NodeSpec {
            type_id: "generator.import",
            category: "generator",
            tags: Vec::new(),
            inputs: Vec::new(),
            outputs: vec![PortSpec::new("out")],
            params: vec![
                ParamSpec::new("path", ParamKind::Path, ParamValue::Text("")),
                ParamSpec::number("offset_x", -1_000_000, 1_000_000, 0),
                ParamSpec::number("offset_y", -1_000_000, 1_000_000, 0),
                ParamSpec::number("rotation", 0, 360_000_000, 0).with_unit(Unit::Degrees),
                ParamSpec::number("scale", 50_000, 8_000_000, 1_000_000),
                ParamSpec::choice("edge", options, "extend"),
            ],
            emitted_layers: Vec::new(),
            mask_aware: false,
        };
        assert(r@ =~= import_node());
        r
    }

    /// The node's place in the palette.
    pub fn group(&self) -> (r: NodeGroup)
        ensures
            r.group@ == "source"@,
            r.sort == 50,
    {
        NodeGroup { group: "source", sort: 50 }
    }
}

/// What a tap outside the image reads.
#[derive(Clone, Copy, Debug, PartialEq, Eq, Structural)]
pub enum EdgePolicy {
    /// The nearest edge pixel.
    Extend,
    /// Zero.
    Zero,
    /// The image, tiled.
    Wrap,
}

/// The edge policy of an id; an unknown one extends the edge.
pub open spec fn edge_policy(id: Seq<char>) -> EdgePolicy {
    if id == "zero"@ {
        EdgePolicy::Zero
    } else if id == "wrap"@ {
        EdgePolicy::Wrap
    } else {
        EdgePolicy::Extend
    }
}

impl EdgePolicy {
    /// The edge policy of an id; an unknown one extends the edge.
    pub fn from_id(id: &str) -> (r: Self)
        ensures
            r == edge_policy(id@),
    {
        if same_text(id, "zero") {
            EdgePolicy::Zero
        } else if same_text(id, "wrap") {
            EdgePolicy::Wrap
        } else {
            EdgePolicy::Extend
        }
    }
}

/// The pixel a coordinate reads along an axis of `size` pixels, or nothing.
pub open spec fn tapped(edge: EdgePolicy, v: int, size: int) -> Option<int> {
    match edge {
        EdgePolicy::Extend => Some(
            if v < 0 {
                0
            } else if v >= size {
                size - 1
            } else {
                v
            },
        ),
        EdgePolicy::Wrap => Some(v % size),
        EdgePolicy::Zero => if 0 <= v < size {
            Some(v)
        } else {
            None
        },
    }
}

/// A decoded image: its luminance, row by row.
#[derive(Debug)]
pub struct Image<V> {
    pub width: usize,
    pub height: usize,
    pub data: Vec<V>,
}

impl<V> Image<V> {
    /// There is a value for every pixel.
    pub open spec fn wf(self) -> bool {
        self.data@.len() == self.width * self.height
    }

    /// What a tap at `(x, y)` reads.
    pub open spec fn tap(self, x: int, y: int, edge: EdgePolicy, zero: V) -> V {
        if self.width == 0 || self.height == 0 {
            zero
        } else {
            match (
                tapped(edge, x, self.width as int),
                tapped(edge, y, self.height as int),
            ) {
                (Some(px), Some(py)) => self.data@[py * self.width + px],
                _ => zero,
            }
        }
    }

    /// The four taps from `(x, y)`: here, right, below, and below right.
    pub open spec fn taps(self, x: int, y: int, edge: EdgePolicy, zero: V) -> Sided<V> {
        (
            self.tap(x, y, edge, zero),
            self.tap(x + 1, y, edge, zero),
            self.tap(x, y + 1, edge, zero),
            self.tap(x + 1, y + 1, edge, zero),
        )
    }
}

/// The pixel a coordinate reads along an axis.
fn tap_axis(edge: EdgePolicy, v: i64, size: usize) -> (r: Option<usize>)
    requires
        size > 0,
    ensures
        match r {
            Some(p) => p < size && tapped(edge, v as int, size as int) == Some(p as int),
            None => tapped(edge, v as int, size as int) is None,
        },
{
    let n: u64 = size as u64;
    match edge {
        EdgePolicy::Extend => Some(
            if v < 0 {
                0
            } else if v as u64 >= n {
                size - 1
            } else {
                v as usize
            },
        ),
        EdgePolicy::Wrap => if v >= 0 {
            Some((v as u64 % n) as usize)
        } else {
            let k: u64 = (-(v + 1)) as u64;
            proof {
                lemma_wrap_below(v as int, k as int, size as int);
            }
            Some((n - 1 - k % n) as usize)
        },
        EdgePolicy::Zero => if v < 0 || v as u64 >= n {
            None
        } else {
            Some(v as usize)
        },
    }
}

/// Wrapping counts back from the end below zero.
proof fn lemma_wrap_below(v: int, k: int, n: int)
    requires
        n > 0,
        v == -(k + 1),
        k >= 0,
    ensures
        v % n == n - 1 - k % n,
        0 <= k % n < n,
{
    let q = k / n;
    let m = k % n;
    assert(k == q * n + m) by {
        vstd::arithmetic::div_mod::lemma_fundamental_div_mod(k, n);
        assert(n * q == q * n) by (nonlinear_arith);
    }
    assert(v == (-(q + 1)) * n + (n - 1 - m)) by (nonlinear_arith)
        requires
            v == -(k + 1),
            k == q * n + m,
    ;
    vstd::arithmetic::div_mod::lemma_fundamental_div_mod_converse(v, n, -(q + 1), n - 1 - m);
}

impl<V: Copy> Image<V> {
    /// One tap. A tap on an empty image reads zero.
    pub fn pixel(&self, x: i64, y: i64, edge: EdgePolicy, zero: V) -> (r: V)
        requires
            self.wf(),
        ensures
            r == self.tap(x as int, y as int, edge, zero),
    {
        if self.width == 0 || self.height == 0 {
            return zero;
        }
        let n: usize = self.data.len();
        match (tap_axis(edge, x, self.width), tap_axis(edge, y, self.height)) {
            (Some(px), Some(py)) => {
                proof {
                    lemma_index(
                        Grid { width: self.width, height: self.height },
                        px as int,
                        py as int,
                    );
                    assert(n == self.width * self.height);
                }
                self.data[py * self.width + px]
            },
            _ => zero,
        }
    }

    /// The four taps of a bilinear sample.
    pub fn sample(&self, x: i64, y: i64, edge: EdgePolicy, zero: V) -> (r: Sided<V>)
        requires
            self.wf(),
            x < i64::MAX,
            y < i64::MAX,
        ensures
            r == self.taps(x as int, y as int, edge, zero),
    {
        (
            self.pixel(x, y, edge, zero),
            self.pixel(x + 1, y, edge, zero),
            self.pixel(x, y + 1, edge, zero),
            self.pixel(x + 1, y + 1, edge, zero),
        )
    }
}

/// Whether a path names no image yet: nothing but white space.
pub open spec fn names_nothing(path: Seq<char>) -> bool {
    forall|i: int| 0 <= i < path.len() ==> is_space(#[trigger] path[i])
}

/// `place` gives no pixel past the last for any cell of a field of the given size.
pub open spec fn places<T, P: Fn(usize, usize) -> ((i64, i64), T)>(
    place: P,
    width: usize,
    height: usize,
) -> bool {
    forall|x: usize, y: usize, r: ((i64, i64), T)|
        x < width && y < height && #[trigger] call_ensures(place, (x, y), r) ==> r.0.0 < i64::MAX
            && r.0.1 < i64::MAX
}

/// `v` is `mix` of the four taps that `place` puts under the cell `(x, y)`.
pub open spec fn mixed<V, T, P: Fn(usize, usize) -> ((i64, i64), T), M: Fn(Sided<V>, T) -> V>(
    image: Image<V>,
    edge: EdgePolicy,
    zero: V,
    place: P,
    mix: M,
    x: usize,
    y: usize,
    v: V,
) -> bool {
    exists|at: ((i64, i64), T)| #[trigger]
        call_ensures(place, (x, y), at) && call_ensures(
            mix,
            (image.taps(at.0.0 as int, at.0.1 as int, edge, zero), at.1),
            v,
        )
}

impl Import {
    /// Whether the path names no image yet.
    pub fn is_unset(path: &str) -> (r: bool)
        ensures
            r == names_nothing(path@),
    {
        blank(path)
    }

    /// The field of a node that names no image yet: flat.
    pub fn flat<V: Copy, R: Copy>(width: usize, height: usize, region: R, zero: V) -> (r: Field<
        V,
        R,
    >)
        requires
            width * height <= usize::MAX,
        ensures
            r.wf(),
            r.width == width,
            r.height == height,
            r.region == region,
            r.layers().dom() == set![HEIGHT@],
            r.layers()[HEIGHT@] == uniform(width as nat, height as nat, zero),
    {
        let mut out: Field<V, R> = Field::new(width, height, region);
        out.set_layer(HEIGHT, Layer::filled(width, height, zero));
        assert(out.layers().dom() =~= set![HEIGHT@]);
        out
    }

    /// Resamples the image into a field. `place` inverts the placement: the pixel to the upper left
    /// of where a cell falls in the image, and the fractions from there; `mix` blends the four taps.
    pub fn resample<
        V: Copy,
        R: Copy,
        T: Copy,
        P: Fn(usize, usize) -> ((i64, i64), T),
        M: Fn(Sided<V>, T) -> V,
    >(
        image: &Image<V>,
        width: usize,
        height: usize,
        region: R,
        edge: EdgePolicy,
        zero: V,
        place: &P,
        mix: &M,
    ) -> (r: Field<V, R>)
        requires
            width * height <= usize::MAX,
            image.wf(),
            accepts_cells(*place, width, height),
            places(*place, width, height),
            total2(*mix),
        ensures
            r.wf(),
            r.width == width,
            r.height == height,
            r.region == region,
            r.layers().dom() == set![HEIGHT@],
            r.layers()[HEIGHT@].width == width,
            r.layers()[HEIGHT@].height == height,
            r.layers()[HEIGHT@].wf(),
            forall|x: int, y: int|
                0 <= x < width && 0 <= y < height ==> mixed(
                    *image,
                    edge,
                    zero,
                    *place,
                    *mix,
                    x as usize,
                    y as usize,
                    (#[trigger] r.layers()[HEIGHT@].at(x, y))->0,
                ),
    {
        let cell = |x: usize, y: usize| -> (v: V)
            requires
                x < width && y < height,
            ensures
                mixed(*image, edge, zero, *place, *mix, x, y, v),
            {
                let at: ((i64, i64), T) = place(x, y);
                let four: Sided<V> = image.sample(at.0.0, at.0.1, edge, zero);
                mix(four, at.1)
            };
        let r: Field<V, R> = generate(width, height, region, &cell);
        proof {
            assert forall|x: int, y: int| 0 <= x < width && 0 <= y < height implies mixed(
                *image,
                edge,
                zero,
                *place,
                *mix,
                x as usize,
                y as usize,
                (#[trigger] r.layers()[HEIGHT@].at(x, y))->0,
            ) by {
                lemma_rastered_at(r.layers()[HEIGHT@], width, height, cell, x, y);
            }
        }
        r
    }
}

/// A wrapped image repeats: a tap one image further on reads the same pixel.
pub proof fn law_wrap_repeats<V>(image: Image<V>, x: int, y: int, zero: V)
    requires
        image.width > 0,
        image.height > 0,
    ensures
        image.tap(x + image.width, y, EdgePolicy::Wrap, zero) == image.tap(
            x,
            y,
            EdgePolicy::Wrap,
            zero,
        ),
        image.tap(x, y + image.height, EdgePolicy::Wrap, zero) == image.tap(
            x,
            y,
            EdgePolicy::Wrap,
            zero,
        ),
{
    vstd::arithmetic::div_mod::lemma_mod_add_multiples_vanish(x, image.width as int);
    vstd::arithmetic::div_mod::lemma_mod_add_multiples_vanish(y, image.height as int);
}

/// Inside the image the edge policy makes no difference: every policy reads the pixel itself.
pub proof fn law_edges_agree_inside<V>(image: Image<V>, x: int, y: int, edge: EdgePolicy, zero: V)
    requires
        0 <= x < image.width,
        0 <= y < image.height,
    ensures
        image.tap(x, y, edge, zero) == image.data@[y * image.width + x],
{
    vstd::arithmetic::div_mod::lemma_small_mod(x as nat, image.width as nat);
    vstd::arithmetic::div_mod::lemma_small_mod(y as nat, image.height as nat);
}

/// Outside the image a zero edge reads zero.
pub proof fn law_zero_outside<V>(image: Image<V>, x: int, y: int, zero: V)
    requires
        !(0 <= x < image.width && 0 <= y < image.height),
    ensures
        image.tap(x, y, EdgePolicy::Zero, zero) == zero,
{
}

} // verus!
