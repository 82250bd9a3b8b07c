//! Executable functions as parameters: what it means that one computes a mathematical function.
//!
//! The library's algorithms compare, order and route; the arithmetic on heights that they need is
//! the caller's and comes in as a function. A contract then speaks of every mathematical function
//! that the executable one computes.
use vstd::prelude::*;

verus! {

/// `g` accepts every argument.
pub open spec fn total1<A, R, G: Fn(A) -> R>(g: G) -> bool {
    forall|a: A| #[trigger] call_requires(g, (a,))
}

/// `g` accepts every pair of arguments.
pub open spec fn total2<A, B, R, G: Fn(A, B) -> R>(g: G) -> bool {
    forall|a: A, b: B| #[trigger] call_requires(g, (a, b))
}

/// `g` accepts every cell of a field of the given size.
pub open spec fn accepts_cells<R, G: Fn(usize, usize) -> R>(g: G, width: usize, height: usize) -> bool {
    forall|x: usize, y: usize| x < width && y < height ==> #[trigger] call_requires(g, (x, y))
}

/// `g` accepts every triple of arguments.
pub open spec fn total3<A, B, C, R, G: Fn(A, B, C) -> R>(g: G) -> bool {
    forall|a: A, b: B, c: C| #[trigger] call_requires(g, (a, b, c))
}

/// `g` accepts every four arguments.
pub open spec fn total4<A, B, C, D, R, G: Fn(A, B, C, D) -> R>(g: G) -> bool {
    forall|a: A, b: B, c: C, d: D| #[trigger] call_requires(g, (a, b, c, d))
}

/// Whatever `g` returns is what `f` gives.
pub open spec fn computes1<A, R, G: Fn(A) -> R>(g: G, f: spec_fn(A) -> R) -> bool {
    forall|a: A, r: R| #[trigger] call_ensures(g, (a,), r) ==> r == f(a)
}

/// Whatever `g` returns is what `f` gives.
pub open spec fn computes2<A, B, R, G: Fn(A, B) -> R>(g: G, f: spec_fn(A, B) -> R) -> bool {
    forall|a: A, b: B, r: R| #[trigger] call_ensures(g, (a, b), r) ==> r == f(a, b)
}

/// Whatever `g` returns is what `f` gives.
pub open spec fn computes3<A, B, C, R, G: Fn(A, B, C) -> R>(
    g: G,
    f: spec_fn(A, B, C) -> R,
) -> bool {
    forall|a: A, b: B, c: C, r: R| #[trigger] call_ensures(g, (a, b, c), r) ==> r == f(a, b, c)
}

/// Whatever `g` returns is what `f` gives.
pub open spec fn computes4<A, B, C, D, R, G: Fn(A, B, C, D) -> R>(
    g: G,
    f: spec_fn(A, B, C, D) -> R,
) -> bool {
    forall|a: A, b: B, c: C, d: D, r: R| #[trigger]
        call_ensures(g, (a, b, c, d), r) ==> r == f(a, b, c, d)
}

/// `g` accepts every list of values.
pub open spec fn total_list<A, R, G: Fn(&Vec<A>) -> R>(g: G) -> bool {
    forall|a: &Vec<A>| #[trigger] call_requires(g, (a,))
}

/// `g` accepts every list of `n` values.
pub open spec fn accepts_lists<A, R, G: Fn(&Vec<A>) -> R>(g: G, n: nat) -> bool {
    forall|a: &Vec<A>| a@.len() == n ==> #[trigger] call_requires(g, (a,))
}

/// `g` returns `n` values for every list of `n` values.
pub open spec fn keeps_lists<A, B, G: Fn(&Vec<A>) -> Vec<B>>(g: G, n: nat) -> bool {
    forall|a: &Vec<A>, r: Vec<B>|
        a@.len() == n && #[trigger] call_ensures(g, (a,), r) ==> r@.len() == n
}

/// `r` is something that `g` returns for a list that holds `values`.
pub open spec fn of_list<A, R, G: Fn(&Vec<A>) -> R>(g: G, values: Seq<A>, r: R) -> bool {
    exists|a: &Vec<A>| a@ == values && #[trigger] call_ensures(g, (a,), r)
}

} // verus!
