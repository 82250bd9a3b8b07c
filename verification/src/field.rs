//! Fields: named layers of cells over one region.
use crate::grid::{lemma_cell, lemma_index, Grid};
use crate::text::same_text;
use std::sync::Arc;
use vstd::prelude::*;

verus! {

/// The layer every node shapes.
pub const HEIGHT: &'static str = "height";

/// The layer that localizes a node's effect.
pub const MASK: &'static str = "mask";

/// The layer that only the view reads: the terrain under a painted mask.
pub const BACKDROP: &'static str = "backdrop";

/// One layer: a value per cell, row by row.
#[derive(Debug)]
pub struct Layer<V> {
    pub width: usize,
    pub height: usize,
    pub cells: Vec<V>,
}

/// What a [`Layer`] holds.
#[verifier::ext_equal]
pub ghost struct Raster<V> {
    pub width: nat,
    pub height: nat,
    pub cells: Seq<V>,
}

impl<V> View for Layer<V> {
    type V = Raster<V>;

    open spec fn view(&self) -> Raster<V> {
        Raster { width: self.width as nat, height: self.height as nat, cells: self.cells@ }
    }
}

impl<V> Raster<V> {
    /// There is a value for every cell.
    pub open spec fn wf(self) -> bool {
        self.cells.len() == self.width * self.height
    }

    /// The value at `(x, y)`, or nothing past the edge.
    pub open spec fn at(self, x: int, y: int) -> Option<V> {
        if 0 <= x < self.width && 0 <= y < self.height {
            Some(self.cells[y * self.width + x])
        } else {
            None
        }
    }
}

/// A layer with one value everywhere.
pub open spec fn uniform<V>(width: nat, height: nat, value: V) -> Raster<V> {
    Raster { width, height, cells: Seq::new(width * height, |i: int| value) }
}

/// A layer of the given size whose every cell is what `f` returned for its column and row.
pub open spec fn rastered<V, F: Fn(usize, usize) -> V>(
    r: Raster<V>,
    width: usize,
    height: usize,
    f: F,
) -> bool {
    &&& r.width == width
    &&& r.height == height
    &&& r.wf()
    &&& forall|i: int|
        0 <= i < r.cells.len() ==> call_ensures(
            f,
            ((i % (width as int)) as usize, (i / (width as int)) as usize),
            #[trigger] r.cells[i],
        )
}

impl<V: Copy> Layer<V> {
    /// A layer computed cell by cell.
    pub fn from_fn<F: Fn(usize, usize) -> V>(width: usize, height: usize, f: &F) -> (r: Self)
        requires
            width * height <= usize::MAX,
            forall|x: usize, y: usize|
                x < width && y < height ==> #[trigger] call_requires(*f, (x, y)),
        ensures
            rastered(r@, width, height, *f),
    {
        let grid: Grid = Grid { width, height };
        let n: usize = grid.len();
        let mut cells: Vec<V> = Vec::with_capacity(n);
        let mut i: usize = 0;
        while i < n
            invariant
                grid == (Grid { width, height }),
                n == grid.cells(),
                forall|x: usize, y: usize|
                    x < width && y < height ==> #[trigger] call_requires(*f, (x, y)),
                i <= n,
                cells@.len() == i,
                forall|j: int|
                    0 <= j < i ==> call_ensures(
                        *f,
                        ((j % (width as int)) as usize, (j / (width as int)) as usize),
                        #[trigger] cells@[j],
                    ),
            decreases n - i,
        {
            proof {
                lemma_cell(grid, i as int);
            }
            let v: V = f(i % width, i / width);
            cells.push(v);
            i += 1;
        }
        Layer { width, height, cells }
    }

    /// A layer with one value everywhere.
    pub fn filled(width: usize, height: usize, value: V) -> (r: Self)
        requires
            width * height <= usize::MAX,
        ensures
            r@ == uniform(width as nat, height as nat, value),
            r@.wf(),
    {
        let n: usize = width * height;
        let mut cells: Vec<V> = Vec::with_capacity(n);
        let mut i: usize = 0;
        while i < n
            invariant
                n == width * height,
                i <= n,
                cells@.len() == i,
                forall|j: int| 0 <= j < i ==> #[trigger] cells@[j] == value,
            decreases n - i,
        {
            cells.push(value);
            i += 1;
        }
        let r: Layer<V> = Layer { width, height, cells };
        assert(r@ =~= uniform(width as nat, height as nat, value));
        r
    }

    /// The value at `(x, y)`, or `None` past the edge.
    pub fn get(&self, x: usize, y: usize) -> (r: Option<V>)
        requires
            self@.wf(),
        ensures
            r == self@.at(x as int, y as int),
    {
        let n: usize = self.cells.len();
        if x < self.width && y < self.height {
            proof {
                lemma_index(
                    Grid { width: self.width, height: self.height },
                    x as int,
                    y as int,
                );
                assert(n == self.width * self.height);
            }
            Some(self.cells[y * self.width + x])
        } else {
            None
        }
    }

    /// A copy of the layer.
    pub fn copy(&self) -> (r: Self)
        ensures
            r@ == self@,
    {
        let mut cells: Vec<V> = Vec::with_capacity(self.cells.len());
        let mut i: usize = 0;
        while i < self.cells.len()
            invariant
                i <= self.cells@.len(),
                cells@ == self.cells@.take(i as int),
            decreases self.cells.len() - i,
        {
            cells.push(self.cells[i]);
            assert(self.cells@.take(i + 1) =~= self.cells@.take(i as int).push(
                self.cells@[i as int],
            ));
            i += 1;
        }
        assert(self.cells@.take(i as int) =~= self.cells@);
        Layer { width: self.width, height: self.height, cells }
    }
}

/// `Arc::clone`: another pointer to the same layer.
#[verifier::external_body]
fn shared<V>(layer: &Arc<Layer<V>>) -> (r: Arc<Layer<V>>)
    ensures
        r == *layer,
{
    Arc::clone(layer)
}

/// A field: its size, its region, and its layers by name.
#[derive(Debug)]
pub struct Field<V, R> {
    pub width: usize,
    pub height: usize,
    pub region: R,
    /// The layers with their names; the first of a name counts.
    pub entries: Vec<(String, Arc<Layer<V>>)>,
}

/// The first position at which `layers` names `name`, from `i` on.
pub open spec fn named<V>(layers: Seq<(String, Arc<Layer<V>>)>, name: Seq<char>, i: int) -> Option<int>
    decreases layers.len() - i,
{
    if i < 0 || i >= layers.len() {
        None
    } else if layers[i].0@ == name {
        Some(i)
    } else {
        named(layers, name, i + 1)
    }
}

/// What [`named`] finds.
pub proof fn lemma_named<V>(layers: Seq<(String, Arc<Layer<V>>)>, name: Seq<char>, i: int)
    requires
        0 <= i <= layers.len(),
    ensures
        match named(layers, name, i) {
            Some(j) => i <= j < layers.len() && layers[j].0@ == name && forall|k: int|
                i <= k < j ==> (#[trigger] layers[k]).0@ != name,
            None => forall|k: int| i <= k < layers.len() ==> (#[trigger] layers[k]).0@ != name,
        },
    decreases layers.len() - i,
{
    if i < layers.len() && layers[i].0@ != name {
        lemma_named(layers, name, i + 1);
    }
}

impl<V, R> Field<V, R> {
    /// The layers by name.
    pub open spec fn layers(self) -> Map<Seq<char>, Raster<V>> {
        Map::new(
            |name: Seq<char>| named(self.entries@, name, 0) is Some,
            |name: Seq<char>| self.entries@[named(self.entries@, name, 0)->0].1@,
        )
    }

    /// Every layer has a value for each of its cells, and the field's cells can be indexed.
    pub open spec fn wf(self) -> bool {
        &&& self.width * self.height <= usize::MAX
        &&& forall|name: Seq<char>| #[trigger]
            self.layers().contains_key(name) ==> self.layers()[name].wf()
    }

    /// The layer of a name, or one with `default` everywhere.
    pub open spec fn layer_or_of(self, name: Seq<char>, default: V) -> Raster<V> {
        if self.layers().contains_key(name) {
            self.layers()[name]
        } else {
            uniform(self.width as nat, self.height as nat, default)
        }
    }
}

impl<V: Copy, R: Copy> Field<V, R> {
    /// A field without layers.
    pub fn new(width: usize, height: usize, region: R) -> (r: Self)
        requires
            width * height <= usize::MAX,
        ensures
            r.wf(),
            r.width == width,
            r.height == height,
            r.region == region,
            r.layers() == Map::<Seq<char>, Raster<V>>::empty(),
    {
        let r: Field<V, R> = Field { width, height, region, entries: Vec::new() };
        assert(r.layers() =~= Map::empty());
        r
    }

    /// The position of the layer of a name.
    fn position(&self, name: &str) -> (r: Option<usize>)
        ensures
            match r {
                Some(i) => named(self.entries@, name@, 0) == Some(i as int) && i < self.entries@.len(),
                None => named(self.entries@, name@, 0) is None,
            },
    {
        let mut i: usize = 0;
        while i < self.entries.len()
            invariant
                i <= self.entries@.len(),
                named(self.entries@, name@, 0) == named(self.entries@, name@, i as int),
            decreases self.entries.len() - i,
        {
            if same_text(self.entries[i].0.as_str(), name) {
                return Some(i);
            }
            i += 1;
        }
        None
    }

    /// The layer of a name.
    pub fn layer(&self, name: &str) -> (r: Option<&Layer<V>>)
        ensures
            match r {
                Some(l) => self.layers().contains_key(name@) && self.layers()[name@] == l@,
                None => !self.layers().contains_key(name@),
            },
    {
        match self.position(name) {
            Some(i) => Some(&self.entries[i].1),
            None => None,
        }
    }

    /// The layer of a name, or one with `default` everywhere.
    pub fn layer_or(&self, name: &str, default: V) -> (r: Layer<V>)
        requires
            self.wf(),
        ensures
            r@ == self.layer_or_of(name@, default),
            r@.wf(),
    {
        match self.layer(name) {
            Some(l) => l.copy(),
            None => Layer::filled(self.width, self.height, default),
        }
    }

    /// Gives the field a layer, in place of the one it has under that name.
    pub fn set_layer(&mut self, name: &str, layer: Layer<V>)
        requires
            old(self).wf(),
            layer@.wf(),
        ensures
            final(self).wf(),
            final(self).width == old(self).width,
            final(self).height == old(self).height,
            final(self).region == old(self).region,
            final(self).layers() == old(self).layers().insert(name@, layer@),
    {
        let ghost before = self.entries@;
        match self.position(name) {
            Some(i) => {
                self.entries.set(i, (name.to_owned(), Arc::new(layer)));
            },
            None => {
                self.entries.push((name.to_owned(), Arc::new(layer)));
            },
        }
        proof {
            let after = self.entries@;
            lemma_named(before, name@, 0);
            assert forall|other: Seq<char>| named(after, other, 0) == if other == name@
                && named(before, name@, 0) is None {
                Some(before.len() as int)
            } else {
                named(before, other, 0)
            } by {
                lemma_named(before, other, 0);
                lemma_named(after, other, 0);
                let old_at = named(before, other, 0);
                let new_at = named(after, other, 0);
                assert forall|k: int| 0 <= k < before.len() implies after[k].0@ == (
                #[trigger] before[k]).0@ by {}
                if let Some(j) = new_at {
                    if j < before.len() {
                        assert(before[j].0@ == other);
                    }
                }
                if let Some(j) = old_at {
                    assert(after[j].0@ == other);
                }
                if other == name@ && named(before, name@, 0) is None {
                    assert(after[before.len() as int].0@ == other);
                }
            }
            let mine = self.layers();
            let theirs = old(self).layers().insert(name@, layer@);
            assert forall|other: Seq<char>| #[trigger] mine.contains_key(other)
                == theirs.contains_key(other) by {
                assert(named(after, other, 0) is Some == (other == name@ || named(
                    before,
                    other,
                    0,
                ) is Some));
            }
            assert forall|other: Seq<char>| #[trigger] mine.contains_key(other) implies mine[other]
                == theirs[other] by {
                lemma_named(before, other, 0);
                lemma_named(after, other, 0);
                let j = named(after, other, 0)->0;
                assert(mine[other] == after[j].1@);
                if other != name@ {
                    assert(named(before, other, 0) == Some(j));
                    assert(after[j] == before[j]);
                }
            }
            assert(mine =~= theirs);
        }
    }

    /// A copy of the field, which shares its layers.
    pub fn copy(&self) -> (r: Self)
        ensures
            r.width == self.width,
            r.height == self.height,
            r.region == self.region,
            r.layers() == self.layers(),
            self.wf() ==> r.wf(),
    {
        let mut layers: Vec<(String, Arc<Layer<V>>)> = Vec::with_capacity(self.entries.len());
        let mut i: usize = 0;
        while i < self.entries.len()
            invariant
                i <= self.entries@.len(),
                layers@.len() == i,
                forall|j: int|
                    0 <= j < i ==> (#[trigger] layers@[j]).0@ == self.entries@[j].0@ && layers@[j].1@
                        == self.entries@[j].1@,
            decreases self.entries.len() - i,
        {
            layers.push((self.entries[i].0.clone(), shared(&self.entries[i].1)));
            i += 1;
        }
        let r: Field<V, R> = Field {
            width: self.width,
            height: self.height,
            region: self.region,
            entries: layers,
        };
        proof {
            assert forall|name: Seq<char>| named(r.entries@, name, 0) == #[trigger] named(
                self.entries@,
                name,
                0,
            ) by {
                lemma_named(r.entries@, name, 0);
                lemma_named(self.entries@, name, 0);
                if let Some(j) = named(r.entries@, name, 0) {
                    assert(self.entries@[j].0@ == name);
                }
                if let Some(j) = named(self.entries@, name, 0) {
                    assert(r.entries@[j].0@ == name);
                }
            }
            let mine = r.layers();
            let theirs = self.layers();
            assert forall|name: Seq<char>| #[trigger] mine.contains_key(name)
                == theirs.contains_key(name) by {
                assert(named(r.entries@, name, 0) == named(self.entries@, name, 0));
            }
            assert forall|name: Seq<char>| #[trigger] mine.contains_key(name) implies mine[name]
                == theirs[name] by {
                assert(named(r.entries@, name, 0) == named(self.entries@, name, 0));
                lemma_named(self.entries@, name, 0);
                let j = named(self.entries@, name, 0)->0;
                assert(r.entries@[j].1@ == self.entries@[j].1@);
            }
            assert(mine =~= theirs);
        }
        r
    }

    /// The names of the layers, in the order in which the field holds them.
    pub fn layer_names(&self) -> (r: Vec<String>)
        ensures
            r@.len() == self.entries@.len(),
            forall|i: int| 0 <= i < r@.len() ==> (#[trigger] r@[i])@ == self.entries@[i].0@,
            forall|name: Seq<char>|
                self.layers().contains_key(name) <==> exists|i: int|
                    0 <= i < r@.len() && (#[trigger] r@[i])@ == name,
    {
        let mut out: Vec<String> = Vec::with_capacity(self.entries.len());
        let mut i: usize = 0;
        while i < self.entries.len()
            invariant
                i <= self.entries@.len(),
                out@.len() == i,
                forall|j: int| 0 <= j < i ==> (#[trigger] out@[j])@ == self.entries@[j].0@,
            decreases self.entries.len() - i,
        {
            out.push(self.entries[i].0.clone());
            i += 1;
        }
        proof {
            assert forall|name: Seq<char>|
                self.layers().contains_key(name) <==> exists|j: int|
                    0 <= j < out@.len() && (#[trigger] out@[j])@ == name by {
                lemma_named(self.entries@, name, 0);
                if let Some(j) = named(self.entries@, name, 0) {
                    assert(out@[j]@ == name);
                }
            }
        }
        out
    }

    /// The field with one layer computed cell by cell, at the field's size; its other layers pass
    /// through unchanged.
    pub fn reshaped<F: Fn(usize, usize) -> V>(&self, name: &str, cell: &F) -> (r: Self)
        requires
            self.wf(),
            forall|x: usize, y: usize|
                x < self.width && y < self.height ==> #[trigger] call_requires(*cell, (x, y)),
        ensures
            r.wf(),
            r.width == self.width,
            r.height == self.height,
            r.region == self.region,
            r.layers().contains_key(name@),
            r.layers() == self.layers().insert(name@, r.layers()[name@]),
            rastered(r.layers()[name@], self.width, self.height, *cell),
    {
        let mut out: Field<V, R> = self.copy();
        out.set_layer(name, Layer::from_fn(self.width, self.height, cell));
        out
    }
}

} // verus!
