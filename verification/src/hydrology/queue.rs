//! The priority-flood queue: a binary heap of cells that gives out the lowest first.
use vstd::prelude::*;

verus! {

/// A cell waiting in the queue, ordered so the lowest elevation comes first, with ties broken by
/// insertion order so the flood is fully deterministic.
#[derive(Clone, Copy, Debug, PartialEq, Eq, Structural)]
pub struct FloodNode {
    pub elev: i32,
    pub seq: u64,
    pub idx: usize,
}

/// Whether `a` comes before `b`.
pub open spec fn before(a: FloodNode, b: FloodNode) -> bool {
    a.elev < b.elev || (a.elev == b.elev && a.seq < b.seq)
}

/// Whether `a` comes before `b`.
fn comes_before(a: &FloodNode, b: &FloodNode) -> (r: bool)
    ensures
        r == before(*a, *b),
{
    a.elev < b.elev || (a.elev == b.elev && a.seq < b.seq)
}

/// The queue.
pub struct FloodQueue {
    items: Vec<FloodNode>,
}

/// The parent of a heap position.
spec fn parent(i: int) -> int {
    (i - 1) / 2
}

/// No item comes before its parent.
spec fn heap(s: Seq<FloodNode>) -> bool {
    forall|i: int| 0 < i < s.len() ==> !before(#[trigger] s[i], s[parent(i)])
}

/// The items of `s` with those at `i` and `j` exchanged.
spec fn swapped(s: Seq<FloodNode>, i: int, j: int) -> Seq<FloodNode> {
    s.update(i, s[j]).update(j, s[i])
}

/// Exchanging items keeps the contents.
proof fn lemma_swapped(s: Seq<FloodNode>, i: int, j: int)
    requires
        0 <= i < s.len(),
        0 <= j < s.len(),
        s.no_duplicates(),
    ensures
        swapped(s, i, j).to_set() == s.to_set(),
        swapped(s, i, j).no_duplicates(),
{
    let t = swapped(s, i, j);
    assert forall|x: FloodNode| s.to_set().contains(x) implies t.to_set().contains(x) by {
        let k = choose|k: int| 0 <= k < s.len() && s[k] == x;
        if k == i {
            assert(t[j] == x);
        } else if k == j {
            assert(t[i] == x);
        } else {
            assert(t[k] == x);
        }
    }
    assert forall|x: FloodNode| t.to_set().contains(x) implies s.to_set().contains(x) by {
        let k = choose|k: int| 0 <= k < t.len() && t[k] == x;
        if k == i {
            assert(s[j] == x);
        } else if k == j {
            assert(s[i] == x);
        } else {
            assert(s[k] == x);
        }
    }
    assert(t.to_set() =~= s.to_set());
}

/// In a heap nothing comes before the first item.
proof fn lemma_first_is_least(s: Seq<FloodNode>, i: int)
    requires
        heap(s),
        0 <= i < s.len(),
    ensures
        !before(s[i], s[0]),
    decreases i,
{
    if i > 0 {
        lemma_first_is_least(s, parent(i));
    }
}

/// The items of a heap with the first taken out and the last in its place.
spec fn without_first(s: Seq<FloodNode>) -> Seq<FloodNode> {
    swapped(s, 0, s.len() - 1).drop_last()
}

/// Taking out the first item of a heap: it came before all others, and what is left is a heap
/// below the first position.
proof fn lemma_first_leaves(s: Seq<FloodNode>)
    requires
        heap(s),
        s.no_duplicates(),
        s.len() > 0,
    ensures
        s.to_set().contains(s[0]),
        forall|x: FloodNode| #[trigger] s.to_set().contains(x) ==> !before(x, s[0]),
        without_first(s).no_duplicates(),
        without_first(s).to_set() == s.to_set().remove(s[0]),
        forall|j: int|
            0 < j < s.len() - 1 && parent(j) != 0 ==> !before(
                #[trigger] without_first(s)[j],
                without_first(s)[parent(j)],
            ),
{
    let n = s.len() as int;
    let first = s[0];
    let t = swapped(s, 0, n - 1);
    let u = without_first(s);
    lemma_swapped(s, 0, n - 1);
    assert forall|x: FloodNode| #[trigger] s.to_set().contains(x) implies !before(x, first) by {
        let k = choose|k: int| 0 <= k < s.len() && s[k] == x;
        lemma_first_is_least(s, k);
    }
    assert forall|a: int, b: int| 0 <= a < b < u.len() implies #[trigger] u[a] != #[trigger] u[b] by {
        assert(t[a] == u[a] && t[b] == u[b]);
    }
    assert(t[n - 1] == first);
    assert forall|x: FloodNode| u.to_set().contains(x) implies s.to_set().remove(first).contains(
        x,
    ) by {
        let k = choose|k: int| 0 <= k < u.len() && u[k] == x;
        assert(t[k] == x);
        assert(t.to_set().contains(x));
    }
    assert forall|x: FloodNode| s.to_set().remove(first).contains(x) implies u.to_set().contains(
        x,
    ) by {
        assert(t.to_set().contains(x));
        let k = choose|k: int| 0 <= k < t.len() && t[k] == x;
        assert(u[k] == x);
    }
    assert(u.to_set() =~= s.to_set().remove(first));
    assert forall|j: int| 0 < j < n - 1 && parent(j) != 0 implies !before(
        #[trigger] u[j],
        u[parent(j)],
    ) by {
        assert(s[j] == u[j]);
        assert(s[parent(j)] == u[parent(j)]);
    }
}

impl FloodQueue {
    /// The waiting cells.
    pub closed spec fn contents(self) -> Set<FloodNode> {
        self.items@.to_set()
    }

    /// The number of waiting cells.
    pub closed spec fn size(self) -> nat {
        self.items@.len()
    }

    /// A queue in order.
    pub closed spec fn wf(self) -> bool {
        heap(self.items@) && self.items@.no_duplicates()
    }

    /// An empty queue.
    pub fn new() -> (r: Self)
        ensures
            r.wf(),
            r.contents() == Set::<FloodNode>::empty(),
            r.size() == 0,
    {
        let r: FloodQueue = FloodQueue { items: Vec::new() };
        assert(r.contents() =~= Set::empty());
        r
    }

    /// Lets a cell wait that does not wait yet.
    pub fn push(&mut self, node: FloodNode)
        requires
            old(self).wf(),
            !old(self).contents().contains(node),
        ensures
            final(self).wf(),
            final(self).contents() == old(self).contents().insert(node),
            final(self).size() == old(self).size() + 1,
    {
        let ghost before_items = self.items@;
        self.items.push(node);
        let mut i: usize = self.items.len() - 1;
        proof {
            let s = self.items@;
            assert(s[i as int] == node);
            assert forall|a: int, b: int| 0 <= a < b < s.len() implies #[trigger] s[a]
                != #[trigger] s[b] by {
                if b == i {
                    assert(before_items[a] == s[a]);
                    assert(before_items.to_set().contains(s[a]));
                }
            }
            assert(s.to_set() =~= before_items.to_set().insert(node)) by {
                assert forall|x: FloodNode| s.to_set().contains(x) implies before_items.to_set().insert(
                    node,
                ).contains(x) by {
                    let k = choose|k: int| 0 <= k < s.len() && s[k] == x;
                    if k < i {
                        assert(before_items[k] == x);
                    }
                }
                assert forall|x: FloodNode| before_items.to_set().insert(node).contains(
                    x,
                ) implies s.to_set().contains(x) by {
                    if x != node {
                        let k = choose|k: int|
                            0 <= k < before_items.len() && before_items[k] == x;
                        assert(s[k] == x);
                    }
                }
            }
            assert forall|j: int| 0 < j < s.len() && j != i implies !before(
                #[trigger] s[j],
                s[parent(j)],
            ) by {
                assert(before_items[j] == s[j]);
            }
        }
        while i > 0
            invariant
                i < self.items.len(),
                before_items == old(self).items@,
                self.items@.len() == before_items.len() + 1,
                self.items@.no_duplicates(),
                self.items@.to_set() == before_items.to_set().insert(node),
                forall|j: int|
                    0 < j < self.items@.len() && j != i ==> !before(
                        #[trigger] self.items@[j],
                        self.items@[parent(j)],
                    ),
                i > 0 ==> forall|j: int|
                    0 < j < self.items@.len() && parent(j) == i ==> !before(
                        #[trigger] self.items@[j],
                        self.items@[parent(i as int)],
                    ),
            decreases i,
        {
            let p: usize = (i - 1) / 2;
            let child: FloodNode = self.items[i];
            let above: FloodNode = self.items[p];
            if !comes_before(&child, &above) {
                assert(heap(self.items@));
                return;
            }
            let ghost s = self.items@;
            self.items.set(i, above);
            self.items.set(p, child);
            proof {
                lemma_swapped(s, i as int, p as int);
                let t = self.items@;
                assert(t == swapped(s, i as int, p as int));
                assert forall|j: int| 0 < j < t.len() && j != p implies !before(
                    #[trigger] t[j],
                    t[parent(j)],
                ) by {
                    if j != i {
                        assert(t[j] == s[j]);
                        if parent(j) == p {
                            assert(!before(s[j], s[p as int]));
                        }
                    }
                }
                if p > 0 {
                    assert forall|j: int| 0 < j < t.len() && parent(j) == p implies !before(
                        #[trigger] t[j],
                        t[parent(p as int)],
                    ) by {
                        assert(!before(s[p as int], s[parent(p as int)]));
                        if j != i {
                            assert(t[j] == s[j]);
                            assert(!before(s[j], s[p as int]));
                        }
                    }
                }
            }
            i = p;
        }
        assert(heap(self.items@));
    }

    /// Takes out the cell that comes before all others.
    pub fn pop(&mut self) -> (r: Option<FloodNode>)
        requires
            old(self).wf(),
        ensures
            final(self).wf(),
            match r {
                Some(node) => {
                    &&& old(self).contents().contains(node)
                    &&& forall|x: FloodNode| #[trigger]
                        old(self).contents().contains(x) ==> !before(x, node)
                    &&& final(self).contents() == old(self).contents().remove(node)
                    &&& final(self).size() == old(self).size() - 1
                },
                None => old(self).size() == 0 && old(self).contents() == Set::<FloodNode>::empty()
                    && final(self).contents() == old(self).contents(),
            },
    {
        let n: usize = self.items.len();
        if n == 0 {
            assert(self.contents() =~= Set::empty());
            return None;
        }
        let ghost all = self.items@;
        let first: FloodNode = self.items[0];
        let last: FloodNode = self.items[n - 1];
        proof {
            lemma_first_leaves(all);
        }
        self.items.set(0, last);
        let _dropped: Option<FloodNode> = self.items.pop();
        assert(self.items@ =~= without_first(all));
        let m: usize = self.items.len();
        let mut i: usize = 0;
        while i < m
            invariant
                m == self.items@.len(),
                m < usize::MAX,
                m == n - 1,
                i <= m,
                self.items@.no_duplicates(),
                self.items@.to_set() == all.to_set().remove(first),
                all.to_set().contains(first),
                forall|x: FloodNode| #[trigger]
                    all.to_set().contains(x) ==> !before(x, first),
                all == old(self).items@,
                n == all.len(),
                forall|j: int|
                    0 < j < m && parent(j) != i ==> !before(
                        #[trigger] self.items@[j],
                        self.items@[parent(j)],
                    ),
                0 < i < m ==> forall|j: int|
                    0 < j < m && parent(j) == i ==> !before(
                        #[trigger] self.items@[j],
                        self.items@[parent(i as int)],
                    ),
            decreases m - i,
        {
            let ghost s = self.items@;
            if i >= m / 2 {
                proof {
                    assert forall|j: int| 0 < j < m implies !before(
                        #[trigger] s[j],
                        s[parent(j)],
                    ) by {
                        assert(parent(j) < m / 2) by {
                            assert(j <= m - 1);
                        }
                    }
                }
                return Some(first);
            }
            let left: usize = 2 * i + 1;
            let mut child: usize = left;
            if left + 1 < m && comes_before(&self.items[left + 1], &self.items[left]) {
                child = left + 1;
            }
            let low: FloodNode = self.items[child];
            let here: FloodNode = self.items[i];
            if !comes_before(&low, &here) {
                proof {
                    assert forall|j: int| 0 < j < m implies !before(
                        #[trigger] s[j],
                        s[parent(j)],
                    ) by {
                        if parent(j) == i {
                            assert(j == left || j == left + 1);
                        }
                    }
                }
                return Some(first);
            }
            self.items.set(i, low);
            self.items.set(child, here);
            proof {
                lemma_swapped(s, i as int, child as int);
                let t = self.items@;
                assert(t == swapped(s, i as int, child as int));
                assert(parent(child as int) == i);
                assert forall|j: int| 0 < j < m && parent(j) != child implies !before(
                    #[trigger] t[j],
                    t[parent(j)],
                ) by {
                    if j == i {
                        assert(!before(s[child as int], s[parent(i as int)]));
                    } else if parent(j) == i {
                        assert(j == left || j == left + 1);
                        if j != child {
                            assert(t[j] == s[j]);
                        }
                    } else {
                        assert(t[j] == s[j]);
                        assert(t[parent(j)] == s[parent(j)]);
                    }
                }
                assert forall|j: int| 0 < j < m && parent(j) == child implies !before(
                    #[trigger] t[j],
                    t[parent(child as int)],
                ) by {
                    assert(t[j] == s[j]);
                    assert(!before(s[j], s[child as int]));
                }
            }
            i = child;
        }
        Some(first)
    }
}

} // verus!
