//! The drainage stack: an order in which every cell comes after the cell it drains into.
use vstd::prelude::*;
use vstd::set_lib::{lemma_int_range, lemma_len_subset};

verus! {

/// A flow graph: each cell names the cell it drains into, itself where it is a sink.
pub open spec fn flow_graph(receiver: Seq<usize>) -> bool {
    forall|i: int| 0 <= i < receiver.len() ==> #[trigger] receiver[i] < receiver.len()
}

/// The cells below `k` that drain into `c` from elsewhere, in ascending order.
pub open spec fn donors_below(receiver: Seq<usize>, c: int, k: int) -> Seq<usize>
    decreases k,
{
    if k <= 0 {
        Seq::empty()
    } else if receiver[k - 1] == c && k - 1 != c {
        donors_below(receiver, c, k - 1).push((k - 1) as usize)
    } else {
        donors_below(receiver, c, k - 1)
    }
}

/// The cells that drain into `c` from elsewhere, in ascending order.
pub open spec fn donors(receiver: Seq<usize>, c: int) -> Seq<usize> {
    donors_below(receiver, c, receiver.len() as int)
}

/// The cells upstream of those waiting, depth first: the cell that waits last is listed, and its
/// donors wait behind the others. `limit` bounds the number of cells listed.
pub open spec fn upstream(receiver: Seq<usize>, waiting: Seq<usize>, limit: nat) -> Seq<usize>
    decreases limit,
{
    if waiting.len() == 0 || limit == 0 {
        Seq::empty()
    } else {
        let c = waiting.last();
        seq![c] + upstream(
            receiver,
            waiting.drop_last() + donors(receiver, c as int),
            (limit - 1) as nat,
        )
    }
}

/// The cells upstream of the sinks below `k`, sink by sink.
pub open spec fn drainage_order(receiver: Seq<usize>, k: int) -> Seq<usize>
    decreases k,
{
    if k <= 0 {
        Seq::empty()
    } else if receiver[k - 1] == k - 1 {
        drainage_order(receiver, k - 1) + upstream(
            receiver,
            seq![(k - 1) as usize],
            receiver.len(),
        )
    } else {
        drainage_order(receiver, k - 1)
    }
}

/// The cell that water from `c` reaches after `steps` steps.
pub open spec fn downstream(receiver: Seq<usize>, c: int, steps: nat) -> int
    decreases steps,
{
    if steps == 0 {
        c
    } else {
        downstream(receiver, receiver[c] as int, (steps - 1) as nat)
    }
}

/// Whether water from `c` reaches a sink.
pub open spec fn reaches_sink(receiver: Seq<usize>, c: int) -> bool {
    exists|steps: nat|
        {
            let s = #[trigger] downstream(receiver, c, steps);
            receiver[s] == s
        }
}

/// A list of distinct cells in which each cell that is not a sink comes after its receiver.
pub open spec fn topological(receiver: Seq<usize>, order: Seq<usize>) -> bool {
    &&& order.no_duplicates()
    &&& forall|i: int| 0 <= i < order.len() ==> #[trigger] order[i] < receiver.len()
    &&& forall|i: int|
        0 <= i < order.len() && receiver[#[trigger] order[i] as int] != order[i] ==> exists|j: int|
            0 <= j < i && #[trigger] order[j] == receiver[order[i] as int]
}

/// Where the donors of `c` start, counting only donors below `k`, when each cell's donors follow
/// those of the cells before it.
spec fn offset_below(receiver: Seq<usize>, c: int, k: int) -> nat
    decreases c,
{
    if c <= 0 {
        0
    } else {
        offset_below(receiver, c - 1, k) + donors_below(receiver, c - 1, k).len()
    }
}

/// One cell more adds a donor to its receiver alone.
proof fn lemma_offset_step(receiver: Seq<usize>, c: int, k: int)
    requires
        0 <= k < receiver.len(),
        0 <= c <= receiver.len(),
    ensures
        offset_below(receiver, c, k + 1) == offset_below(receiver, c, k) + if receiver[k] != k
            && receiver[k] < c {
            1nat
        } else {
            0nat
        },
    decreases c,
{
    if c > 0 {
        lemma_offset_step(receiver, c - 1, k);
    }
}

/// There are at most as many donors as cells.
proof fn lemma_offset_bound(receiver: Seq<usize>, c: int, k: int)
    requires
        0 <= k <= receiver.len(),
        0 <= c <= receiver.len(),
    ensures
        offset_below(receiver, c, k) <= k,
    decreases k,
{
    if k > 0 {
        lemma_offset_bound(receiver, c, k - 1);
        lemma_offset_step(receiver, c, k - 1);
    } else {
        lemma_offset_zero(receiver, c);
    }
}

/// No cells, no donors.
proof fn lemma_offset_zero(receiver: Seq<usize>, c: int)
    ensures
        offset_below(receiver, c, 0) == 0,
    decreases c,
{
    if c > 0 {
        lemma_offset_zero(receiver, c - 1);
    }
}

/// Donor ranges follow one another.
proof fn lemma_offset_monotone(receiver: Seq<usize>, a: int, b: int, k: int)
    requires
        0 <= a < b,
    ensures
        offset_below(receiver, a, k) + donors_below(receiver, a, k).len() <= offset_below(
            receiver,
            b,
            k,
        ),
    decreases b,
{
    if a < b - 1 {
        lemma_offset_monotone(receiver, a, b - 1, k);
    }
}

/// More cells, no fewer donors, and the earlier ones stay first.
proof fn lemma_donors_grow(receiver: Seq<usize>, c: int, k: int, l: int)
    requires
        0 <= k <= l,
    ensures
        donors_below(receiver, c, k).len() <= donors_below(receiver, c, l).len(),
    decreases l,
{
    if k < l {
        lemma_donors_grow(receiver, c, k, l - 1);
    }
}

/// What the donors of `c` are.
pub proof fn lemma_donors(receiver: Seq<usize>, c: int, k: int)
    requires
        0 <= k <= receiver.len(),
        receiver.len() <= usize::MAX,
    ensures
        forall|d: usize| #[trigger]
            donors_below(receiver, c, k).contains(d) <==> d < k && receiver[d as int] == c && d
                != c,
        donors_below(receiver, c, k).no_duplicates(),
    decreases k,
{
    if k > 0 {
        lemma_donors(receiver, c, k - 1);
        let front = donors_below(receiver, c, k - 1);
        if receiver[k - 1] == c && k - 1 != c {
            assert forall|d: usize| #[trigger]
                donors_below(receiver, c, k).contains(d) <==> d < k && receiver[d as int] == c && d
                    != c by {
                if front.contains(d) {
                    let j = choose|j: int| 0 <= j < front.len() && front[j] == d;
                    assert(front.push((k - 1) as usize)[j] == d);
                }
                if d == k - 1 {
                    assert(front.push((k - 1) as usize)[front.len() as int] == d);
                }
            }
            let all = front.push((k - 1) as usize);
            assert forall|i: int, j: int|
                0 <= i < j < all.len() implies #[trigger] all[i] != #[trigger] all[j] by {
                if j == front.len() {
                    assert(front.contains(front[i]));
                }
            }
        }
    }
}

/// Distinct cells are no more than there are cells.
pub proof fn lemma_distinct_bound(s: Seq<usize>, n: nat)
    requires
        s.no_duplicates(),
        forall|i: int| 0 <= i < s.len() ==> #[trigger] s[i] < n,
    ensures
        s.len() <= n,
{
    let t = s.map_values(|c: usize| c as int);
    assert(t.no_duplicates());
    t.unique_seq_to_set();
    lemma_int_range(0, n as int);
    assert forall|x: int| t.to_set().contains(x) implies vstd::set_lib::set_int_range(
        0,
        n as int,
    ).contains(x) by {
        let i = choose|i: int| 0 <= i < t.len() && t[i] == x;
        assert(s[i] < n);
    }
    lemma_len_subset(t.to_set(), vstd::set_lib::set_int_range(0, n as int));
}

/// The donor lists of all cells in one array: cell `c` has `donors[offset[c]..offset[c + 1]]`.
struct DonorTable {
    offset: Vec<usize>,
    donors: Vec<usize>,
}

impl DonorTable {
    /// The table holds the donor lists of the flow graph.
    spec fn wf(self, receiver: Seq<usize>) -> bool {
        let n = receiver.len() as int;
        &&& self.offset.len() == n + 1
        &&& forall|c: int|
            0 <= c <= n ==> #[trigger] self.offset@[c] == offset_below(receiver, c, n)
        &&& self.donors.len() == self.offset@[n]
        &&& forall|c: int, k: int|
            0 <= c < n && 0 <= k < donors(receiver, c).len() ==> self.donors@[self.offset@[c] + k]
                == #[trigger] donors(receiver, c)[k]
    }

    /// Counts the donors of each cell, sums the counts to offsets, and scatters the donors.
    fn new(receiver: &[usize]) -> (r: Self)
        requires
            flow_graph(receiver@),
        ensures
            r.wf(receiver@),
    {
        let n: usize = receiver.len();
        let mut count: Vec<usize> = vec![0; n];
        let mut i: usize = 0;
        while i < n
            invariant
                n == receiver.len(),
                flow_graph(receiver@),
                i <= n,
                count.len() == n,
                forall|c: int|
                    0 <= c < n ==> #[trigger] count@[c] == donors_below(
                        receiver@,
                        c,
                        i as int,
                    ).len() && count@[c] <= i,
            decreases n - i,
        {
            let r: usize = receiver[i];
            if r != i {
                count.set(r, count[r] + 1);
            }
            i += 1;
        }
        let mut offset: Vec<usize> = vec![0; n];
        offset.push(0);
        let mut c: usize = 0;
        while c < n
            invariant
                n == receiver.len(),
                c <= n,
                count.len() == n,
                offset.len() == n + 1,
                forall|b: int|
                    0 <= b < n ==> #[trigger] count@[b] == donors(receiver@, b).len(),
                forall|b: int|
                    0 <= b <= c ==> #[trigger] offset@[b] == offset_below(receiver@, b, n as int),
            decreases n - c,
        {
            proof {
                lemma_offset_bound(receiver@, c + 1, n as int);
                assert(count@[c as int] == donors(receiver@, c as int).len());
                assert(offset@[c as int] == offset_below(receiver@, c as int, n as int));
            }
            offset.set(c + 1, offset[c] + count[c]);
            c += 1;
        }
        let mut cursor: Vec<usize> = Vec::new();
        let mut k: usize = 0;
        while k < n
            invariant
                n + 1 == offset.len(),
                k <= n,
                cursor.len() == k,
                forall|b: int| 0 <= b < k ==> #[trigger] cursor@[b] == offset@[b],
            decreases n - k,
        {
            cursor.push(offset[k]);
            k += 1;
        }
        let mut table: Vec<usize> = vec![0; offset[n]];
        let mut i: usize = 0;
        while i < n
            invariant
                n == receiver.len(),
                flow_graph(receiver@),
                i <= n,
                cursor.len() == n,
                offset.len() == n + 1,
                table.len() == offset@[n as int],
                forall|b: int|
                    0 <= b <= n ==> #[trigger] offset@[b] == offset_below(receiver@, b, n as int),
                forall|b: int|
                    0 <= b < n ==> #[trigger] cursor@[b] == offset@[b] + donors_below(
                        receiver@,
                        b,
                        i as int,
                    ).len(),
                forall|b: int, j: int|
                    0 <= b < n && 0 <= j < donors_below(receiver@, b, i as int).len()
                        ==> table@[offset@[b] + j] == #[trigger] donors_below(
                        receiver@,
                        b,
                        i as int,
                    )[j],
            decreases n - i,
        {
            let r: usize = receiver[i];
            if r != i {
                let ghost before = table@;
                let ghost slot = cursor@[r as int] as int;
                proof {
                    assert(donors_below(receiver@, r as int, i + 1).len() == donors_below(
                        receiver@,
                        r as int,
                        i as int,
                    ).len() + 1);
                    lemma_donors_grow(receiver@, r as int, i + 1, n as int);
                    lemma_offset_monotone(receiver@, r as int, n as int, n as int);
                    assert(offset@[r as int] == offset_below(receiver@, r as int, n as int));
                    assert(offset@[n as int] == offset_below(receiver@, n as int, n as int));
                }
                table.set(cursor[r], i);
                proof {
                    assert forall|b: int, j: int|
                        0 <= b < n && 0 <= j < donors_below(
                            receiver@,
                            b,
                            i + 1,
                        ).len() implies table@[offset@[b] + j] == #[trigger] donors_below(
                        receiver@,
                        b,
                        i + 1,
                    )[j] by {
                        lemma_donors_grow(receiver@, b, i + 1, n as int);
                        assert(offset@[b] == offset_below(receiver@, b, n as int));
                        if b < r {
                            lemma_offset_monotone(receiver@, b, r as int, n as int);
                        } else if r < b {
                            lemma_offset_monotone(receiver@, r as int, b, n as int);
                            lemma_offset_monotone(receiver@, b, n as int, n as int);
                        }
                        if b != r {
                            assert(table@[offset@[b] + j] == donors_below(
                                receiver@,
                                b,
                                i as int,
                            )[j]);
                        } else if j < donors_below(receiver@, b, i as int).len() {
                            assert(table@[offset@[b] + j] == donors_below(
                                receiver@,
                                b,
                                i as int,
                            )[j]);
                        }
                    }
                }
                cursor.set(r, cursor[r] + 1);
            } else {
                assert forall|b: int| 0 <= b < n implies #[trigger] donors_below(
                    receiver@,
                    b,
                    i + 1,
                ) == donors_below(receiver@, b, i as int) by {}
            }
            i += 1;
        }
        DonorTable { offset, donors: table }
    }
}

/// The cells listed and waiting: distinct, each with its receiver already listed, and no donor of
/// a listed cell missing.
spec fn traversal(receiver: Seq<usize>, listed: Seq<usize>, waiting: Seq<usize>) -> bool {
    let seen = listed + waiting;
    &&& topological(receiver, listed)
    &&& seen.no_duplicates()
    &&& forall|i: int| 0 <= i < seen.len() ==> #[trigger] seen[i] < receiver.len()
    &&& forall|i: int|
        0 <= i < waiting.len() && receiver[#[trigger] waiting[i] as int] != waiting[i]
            ==> listed.contains(receiver[waiting[i] as int])
    &&& forall|d: usize|
        #![trigger receiver[d as int]]
        d < receiver.len() && listed.contains(receiver[d as int]) && !listed.contains(d)
            ==> waiting.contains(d)
}

/// Listing the cell that waits last, and letting its donors wait, keeps the traversal.
proof fn lemma_traversal_step(receiver: Seq<usize>, listed: Seq<usize>, waiting: Seq<usize>)
    requires
        flow_graph(receiver),
        receiver.len() <= usize::MAX,
        traversal(receiver, listed, waiting),
        waiting.len() > 0,
    ensures
        traversal(
            receiver,
            listed.push(waiting.last()),
            waiting.drop_last() + donors(receiver, waiting.last() as int),
        ),
        listed.len() < receiver.len(),
{
    let n = receiver.len() as int;
    let c = waiting.last();
    let seen = listed + waiting;
    let ds = donors(receiver, c as int);
    let listed2 = listed.push(c);
    let waiting2 = waiting.drop_last() + ds;
    let seen2 = listed2 + waiting2;
    lemma_distinct_bound(seen, receiver.len());
    lemma_donors(receiver, c as int, n);
    assert(seen[listed.len() + waiting.len() - 1] == c);
    assert(!listed.contains(c)) by {
        if listed.contains(c) {
            let i = choose|i: int| 0 <= i < listed.len() && listed[i] == c;
            assert(seen[i] == c);
        }
    }
    // A donor of the cell is new: were it seen, its receiver would have been listed before.
    assert forall|j: int| 0 <= j < ds.len() implies !seen.contains(#[trigger] ds[j]) by {
        let d = ds[j];
        assert(ds.contains(d));
        assert(receiver[d as int] == c && d != c);
        if seen.contains(d) {
            let i = choose|i: int| 0 <= i < seen.len() && seen[i] == d;
            if i < listed.len() {
                assert(listed[i] == d);
                let k = choose|k: int| 0 <= k < i && #[trigger] listed[k] == receiver[d as int];
                assert(listed.contains(c));
            } else {
                assert(waiting[i - listed.len()] == d);
                assert(listed.contains(c));
            }
        }
    }
    assert forall|i: int, j: int| 0 <= i < j < seen2.len() implies #[trigger] seen2[i]
        != #[trigger] seen2[j] by {
        let a: int = listed.len() as int;
        let b: int = (listed.len() + waiting.len()) as int;
        // Positions of the old cells: the moved cell sits right behind the listed ones.
        let at = |p: int|
            if p < a {
                p
            } else if p == a {
                b - 1
            } else {
                p - 1
            };
        if i < b {
            assert(seen2[i] == seen[at(i)]);
        }
        if j < b {
            assert(seen2[j] == seen[at(j)]);
        } else {
            assert(seen2[j] == ds[j - b]);
            if i < b {
                assert(seen.contains(seen2[i]));
            } else {
                assert(seen2[i] == ds[i - b]);
            }
        }
    }
    assert forall|i: int| 0 <= i < seen2.len() implies #[trigger] seen2[i] < receiver.len() by {
        let b: int = (listed.len() + waiting.len()) as int;
        if i < listed.len() {
            assert(seen2[i] == seen[i]);
        } else if i == listed.len() {
            assert(seen2[i] == c);
        } else if i < b {
            assert(seen2[i] == seen[i - 1]);
        } else {
            assert(ds.contains(ds[i - b]));
        }
    }
    assert(topological(receiver, listed2)) by {
        assert forall|i: int, j: int| 0 <= i < j < listed2.len() implies #[trigger] listed2[i]
            != #[trigger] listed2[j] by {
            assert(seen2[i] == listed2[i] && seen2[j] == listed2[j]);
        }
        assert forall|i: int|
            0 <= i < listed2.len() && receiver[#[trigger] listed2[i] as int]
                != listed2[i] implies exists|j: int|
            0 <= j < i && #[trigger] listed2[j] == receiver[listed2[i] as int] by {
            if i < listed.len() {
                assert(listed[i] == listed2[i]);
                let j = choose|j: int|
                    0 <= j < i && #[trigger] listed[j] == receiver[listed[i] as int];
                assert(listed2[j] == receiver[listed2[i] as int]);
            } else {
                assert(waiting[waiting.len() - 1] == c);
                let j = choose|j: int|
                    0 <= j < listed.len() && listed[j] == receiver[c as int];
                assert(listed2[j] == receiver[listed2[i] as int]);
            }
        }
    }
    assert forall|i: int|
        0 <= i < waiting2.len() && receiver[#[trigger] waiting2[i] as int]
            != waiting2[i] implies listed2.contains(receiver[waiting2[i] as int]) by {
        if i < waiting.len() - 1 {
            assert(waiting[i] == waiting2[i]);
            let j = choose|j: int|
                0 <= j < listed.len() && listed[j] == receiver[waiting[i] as int];
            assert(listed2[j] == receiver[waiting2[i] as int]);
        } else {
            let k = i - (waiting.len() - 1);
            assert(ds.contains(ds[k]));
            assert(listed2[listed.len() as int] == c);
        }
    }
    assert forall|d: usize|
        #![trigger receiver[d as int]]
        d < receiver.len() && listed2.contains(receiver[d as int]) && !listed2.contains(
            d,
        ) implies waiting2.contains(d) by {
        if listed.contains(d) {
            let j = choose|j: int| 0 <= j < listed.len() && listed[j] == d;
            assert(listed2[j] == d);
        }
        assert(listed2[listed.len() as int] == c);
        if receiver[d as int] == c {
            assert(d != c);
            assert(ds.contains(d));
            let j = choose|j: int| 0 <= j < ds.len() && ds[j] == d;
            assert(waiting2[waiting.len() - 1 + j] == d);
        } else {
            let r = receiver[d as int];
            let j = choose|j: int| 0 <= j < listed2.len() && listed2[j] == r;
            assert(listed[j] == r);
            assert(waiting.contains(d));
            let k = choose|k: int| 0 <= k < waiting.len() && waiting[k] == d;
            assert(waiting2[k] == d);
        }
    }
}

/// Every cell of a topological order reaches a sink.
proof fn lemma_listed_reaches_sink(receiver: Seq<usize>, order: Seq<usize>, i: int)
    requires
        flow_graph(receiver),
        topological(receiver, order),
        0 <= i < order.len(),
    ensures
        reaches_sink(receiver, order[i] as int),
    decreases i,
{
    let c = order[i] as int;
    if receiver[c] == c {
        assert(downstream(receiver, c, 0) == c);
    } else {
        let j = choose|j: int| 0 <= j < i && #[trigger] order[j] == receiver[order[i] as int];
        lemma_listed_reaches_sink(receiver, order, j);
        let r = receiver[c] as int;
        let steps = choose|steps: nat|
            {
                let s = #[trigger] downstream(receiver, r, steps);
                receiver[s] == s
            };
        assert(downstream(receiver, c, steps + 1) == downstream(receiver, r, steps));
    }
}

/// A list that holds every sink and, with a cell, its donors holds every cell that reaches a sink.
proof fn lemma_reaching_is_listed(
    receiver: Seq<usize>,
    listed: Seq<usize>,
    c: usize,
    steps: nat,
)
    requires
        flow_graph(receiver),
        c < receiver.len(),
        forall|s: usize|
            s < receiver.len() && receiver[s as int] == s ==> #[trigger] listed.contains(s),
        forall|d: usize|
            #![trigger receiver[d as int]]
            d < receiver.len() && listed.contains(receiver[d as int]) ==> listed.contains(d),
        receiver[downstream(receiver, c as int, steps)] == downstream(receiver, c as int, steps),
    ensures
        listed.contains(c),
    decreases steps,
{
    if steps > 0 {
        lemma_reaching_is_listed(receiver, listed, receiver[c as int], (steps - 1) as nat);
    }
}

/// The drainage stack of a flow graph: depth first up the donor tree from each sink, sinks in
/// ascending order. It lists the cells that reach a sink, each once and after its receiver.
pub fn build_stack(receiver: &[usize]) -> (r: Vec<usize>)
    requires
        flow_graph(receiver@),
    ensures
        r@ == drainage_order(receiver@, receiver@.len() as int),
        topological(receiver@, r@),
        forall|c: usize| #[trigger]
            r@.contains(c) <==> c < receiver@.len() && reaches_sink(receiver@, c as int),
{
    let n: usize = receiver.len();
    let table: DonorTable = DonorTable::new(receiver);
    let mut stack: Vec<usize> = Vec::with_capacity(n);
    let mut work: Vec<usize> = Vec::new();
    let mut i: usize = 0;
    while i < n
        invariant
            n == receiver@.len(),
            i <= n,
            flow_graph(receiver@),
            table.wf(receiver@),
            work@.len() == 0,
            stack@ == drainage_order(receiver@, i as int),
            traversal(receiver@, stack@, Seq::empty()),
            forall|s: usize|
                s < i && receiver@[s as int] == s ==> #[trigger] stack@.contains(s),
            forall|s: usize| #[trigger]
                stack@.contains(s) && receiver@[s as int] == s ==> s < i,
        decreases n - i,
    {
        if receiver[i] == i {
            let ghost base = stack@;
            let ghost whole = upstream(receiver@, seq![i], n as nat);
            work.push(i);
            proof {
                assert(work@ =~= seq![i]);
                let seen = base + work@;
                assert forall|a: int, b: int| 0 <= a < b < seen.len() implies #[trigger] seen[a]
                    != #[trigger] seen[b] by {
                    if b == base.len() {
                        assert(base.contains(seen[a]));
                    }
                }
                assert(base + Seq::<usize>::empty() =~= base);
                assert forall|a: int| 0 <= a < seen.len() implies #[trigger] seen[a] < n by {
                    if a < base.len() {
                        assert((base + Seq::<usize>::empty())[a] == seen[a]);
                    }
                }
                assert(traversal(receiver@, base, work@)) by {
                    assert forall|d: usize|
                        #![trigger receiver@[d as int]]
                        d < receiver@.len() && base.contains(receiver@[d as int])
                            && !base.contains(d) implies work@.contains(d) by {
                        assert(Seq::<usize>::empty().contains(d));
                    }
                }
                assert(base + whole =~= stack@ + whole);
            }
            let ghost mut limit: nat = n as nat;
            while work.len() > 0
                invariant
                    n == receiver@.len(),
                    i < n,
                    receiver@[i as int] == i,
                    flow_graph(receiver@),
                    table.wf(receiver@),
                    traversal(receiver@, stack@, work@),
                    base.len() <= stack@.len(),
                    limit == n - (stack@.len() - base.len()),
                    base + whole == stack@ + upstream(receiver@, work@, limit),
                    forall|s: usize|
                        s < i && receiver@[s as int] == s ==> #[trigger] stack@.contains(s),
                    stack@.contains(i) || work@.contains(i),
                    forall|s: usize| #[trigger]
                        stack@.contains(s) && receiver@[s as int] == s ==> s <= i,
                    forall|s: usize| #[trigger]
                        work@.contains(s) && receiver@[s as int] == s ==> s == i,
                decreases n - stack@.len(),
            {
                let ghost listed = stack@;
                let ghost waiting = work@;
                proof {
                    lemma_traversal_step(receiver@, listed, waiting);
                }
                let c: usize = work.pop().unwrap();
                let ghost ds = donors(receiver@, c as int);
                proof {
                    assert((listed + waiting)[listed.len() + waiting.len() - 1] == c);
                    lemma_offset_monotone(receiver@, c as int, c + 1, n as int);
                    assert(offset_below(receiver@, c + 1, n as int) == offset_below(
                        receiver@,
                        c as int,
                        n as int,
                    ) + ds.len());
                    assert(table.offset@[c as int] == offset_below(
                        receiver@,
                        c as int,
                        n as int,
                    ));
                    assert(table.offset@[c + 1] == offset_below(receiver@, c + 1, n as int));
                    if c + 1 < n {
                        lemma_offset_monotone(receiver@, c + 1, n as int, n as int);
                    }
                    assert(table.offset@[n as int] == offset_below(
                        receiver@,
                        n as int,
                        n as int,
                    ));
                    assert(ds.take(0) =~= Seq::empty());
                }
                stack.push(c);
                let from: usize = table.offset[c];
                let to: usize = table.offset[c + 1];
                let mut k: usize = from;
                while k < to
                    invariant
                        n == receiver@.len(),
                        c < n,
                        table.wf(receiver@),
                        ds == donors(receiver@, c as int),
                        from == table.offset@[c as int],
                        from + ds.len() == to,
                        to <= table.donors.len(),
                        from <= k <= to,
                        work@ == waiting.drop_last() + ds.take(k - from),
                    decreases to - k,
                {
                    assert(table.donors@[table.offset@[c as int] + (k - from)] == ds[k - from]);
                    work.push(table.donors[k]);
                    assert(ds.take(k - from).push(ds[k - from]) =~= ds.take(k + 1 - from));
                    k += 1;
                }
                proof {
                    assert(ds.take(ds.len() as int) =~= ds);
                    assert(stack@ + upstream(receiver@, work@, (limit - 1) as nat) =~= listed + (
                    seq![c] + upstream(receiver@, work@, (limit - 1) as nat)));
                    limit = (limit - 1) as nat;
                    lemma_donors(receiver@, c as int, n as int);
                    assert forall|s: usize| s < i && receiver@[s as int] == s implies #[trigger] stack@.contains(
                        s,
                    ) by {
                        let j = choose|j: int| 0 <= j < listed.len() && listed[j] == s;
                        assert(stack@[j] == s);
                    }
                    assert(stack@[listed.len() as int] == c);
                    assert(waiting[waiting.len() - 1] == c);
                    assert(stack@.contains(i) || work@.contains(i)) by {
                        if listed.contains(i) {
                            let j = choose|j: int| 0 <= j < listed.len() && listed[j] == i;
                            assert(stack@[j] == i);
                        } else if c != i {
                            let j = choose|j: int| 0 <= j < waiting.len() && waiting[j] == i;
                            assert(work@[j] == i);
                        }
                    }
                    assert forall|s: usize| #[trigger]
                        stack@.contains(s) && receiver@[s as int] == s implies s <= i by {
                        let j = choose|j: int| 0 <= j < stack@.len() && stack@[j] == s;
                        if j < listed.len() {
                            assert(listed[j] == s);
                            assert(listed.contains(s));
                        } else {
                            assert(waiting.contains(s));
                        }
                    }
                    assert forall|s: usize| #[trigger]
                        work@.contains(s) && receiver@[s as int] == s implies s == i by {
                        let j = choose|j: int| 0 <= j < work@.len() && work@[j] == s;
                        if j < waiting.len() - 1 {
                            assert(waiting[j] == s);
                            assert(waiting.contains(s));
                        } else {
                            assert(ds[j - (waiting.len() - 1)] == s);
                            assert(ds.contains(s));
                        }
                    }
                }
            }
            proof {
                assert(work@ =~= Seq::empty());
                assert(upstream(receiver@, work@, limit) =~= Seq::empty());
                assert(stack@ =~= base + whole);
            }
        }
        i += 1;
    }
    proof {
        assert(stack@ + Seq::<usize>::empty() =~= stack@);
        assert forall|c: usize| #[trigger]
            stack@.contains(c) <==> c < receiver@.len() && reaches_sink(
                receiver@,
                c as int,
            ) by {
            if stack@.contains(c) {
                let j = choose|j: int| 0 <= j < stack@.len() && stack@[j] == c;
                lemma_listed_reaches_sink(receiver@, stack@, j);
            }
            if c < receiver@.len() && reaches_sink(receiver@, c as int) {
                let steps = choose|steps: nat|
                    {
                        let s = #[trigger] downstream(receiver@, c as int, steps);
                        receiver@[s] == s
                    };
                assert forall|d: usize|
                    #![trigger receiver@[d as int]]
                    d < receiver@.len() && stack@.contains(
                        receiver@[d as int],
                    ) implies stack@.contains(d) by {
                    if !stack@.contains(d) {
                        assert(Seq::<usize>::empty().contains(d));
                    }
                }
                lemma_reaching_is_listed(receiver@, stack@, c, steps);
            }
        }
    }
    stack
}

/// Where every cell reaches a sink, the drainage stack visits every cell exactly once.
pub proof fn law_stack_visits_every_cell_once(receiver: Seq<usize>, stack: Seq<usize>)
    requires
        topological(receiver, stack),
        receiver.len() <= usize::MAX,
        forall|c: usize| #[trigger]
            stack.contains(c) <==> c < receiver.len() && reaches_sink(receiver, c as int),
        forall|c: int| 0 <= c < receiver.len() ==> #[trigger] reaches_sink(receiver, c),
    ensures
        stack.len() == receiver.len(),
        forall|c: usize| c < receiver.len() ==> #[trigger] stack.contains(c),
{
    let n = receiver.len() as int;
    lemma_distinct_bound(stack, receiver.len());
    let t = stack.map_values(|c: usize| c as int);
    assert(t.no_duplicates());
    t.unique_seq_to_set();
    lemma_int_range(0, n);
    assert forall|x: int| vstd::set_lib::set_int_range(0, n).contains(
        x,
    ) implies t.to_set().contains(x) by {
        assert(reaches_sink(receiver, x));
        assert(stack.contains(x as usize));
        let j = choose|j: int| 0 <= j < stack.len() && stack[j] == x as usize;
        assert(t[j] == x);
    }
    lemma_len_subset(vstd::set_lib::set_int_range(0, n), t.to_set());
}

} // verus!
