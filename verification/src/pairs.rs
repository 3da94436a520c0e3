//! The order in which the members of a collection meet each other.
//!
//! A sweep compares every two members of a collection exactly once. The
//! order of the comparisons comes from the `self_compare` crate; this module
//! states that order, and proves that it holds every pair once.

use self_compare::Comparer;
use vstd::prelude::*;

verus! {

/// The pairs `(i, i + 1)`, `(i, i + 2)`, ..., `(i, n - 1)`.
pub open spec fn pair_row(i: nat, n: nat) -> Seq<(usize, usize)> {
    Seq::new((n - 1 - i) as nat, |d: int| (i as usize, (i + 1 + d) as usize))
}

/// The rows of `i`, `i + 1`, ..., one after the other.
pub open spec fn pair_rows(i: nat, n: nat) -> Seq<(usize, usize)>
    decreases n - i,
{
    if i + 1 >= n {
        Seq::empty()
    } else {
        pair_row(i, n) + pair_rows(i + 1, n)
    }
}

/// Every pair `(i, j)` of positions with `i < j < n`, ordered by `i` and
/// then by `j`: `(0, 1)`, `(0, 2)`, ..., `(0, n - 1)`, `(1, 2)`, ...
pub open spec fn pair_order(n: nat) -> Seq<(usize, usize)> {
    pair_rows(0, n)
}

proof fn lemma_rows_bounds(i: nat, n: nat, t: int)
    requires
        n <= usize::MAX,
        0 <= t < pair_rows(i, n).len(),
    ensures
        i <= pair_rows(i, n)[t].0 < pair_rows(i, n)[t].1 < n,
    decreases n - i,
{
    if i + 1 < n {
        if t >= pair_row(i, n).len() {
            lemma_rows_bounds(i + 1, n, t - pair_row(i, n).len());
        }
    }
}

proof fn lemma_rows_hold(i: nat, n: nat, a: int, b: int) -> (t: int)
    requires
        n <= usize::MAX,
        i <= a < b < n,
    ensures
        0 <= t < pair_rows(i, n).len(),
        pair_rows(i, n)[t] == (a as usize, b as usize),
    decreases n - i,
{
    if a == i {
        b - i - 1
    } else {
        let t = lemma_rows_hold(i + 1, n, a, b);
        pair_row(i, n).len() + t
    }
}

proof fn lemma_rows_differ(i: nat, n: nat, s: int, t: int)
    requires
        n <= usize::MAX,
        0 <= s < t < pair_rows(i, n).len(),
    ensures
        pair_rows(i, n)[s] != pair_rows(i, n)[t],
    decreases n - i,
{
    if i + 1 < n {
        let w = pair_row(i, n).len() as int;
        if s >= w {
            lemma_rows_differ(i + 1, n, s - w, t - w);
        } else if t >= w {
            lemma_rows_bounds(i + 1, n, t - w);
        }
    }
}

proof fn lemma_rows_len(i: nat, n: nat)
    requires
        i < n,
    ensures
        2 * pair_rows(i, n).len() == (n - i) * (n - i - 1),
    decreases n - i,
{
    if i + 1 < n {
        lemma_rows_len(i + 1, n);
        assert((n - i) * (n - i - 1) == 2 * (n - 1 - i) + (n - i - 1) * (n - i - 2)) by (nonlinear_arith);
    } else {
        assert((n - i) * (n - i - 1) == 0) by (nonlinear_arith)
            requires
                n - i == 1,
        ;
    }
}

/// A collection of `n` members has `n * (n - 1) / 2` pairs.
pub proof fn lemma_pair_order_len(n: nat)
    ensures
        2 * pair_order(n).len() == if n == 0 { 0 } else { n * (n - 1) },
{
    if n > 0 {
        lemma_rows_len(0, n);
    }
}

/// Each entry of the order names two positions of the collection, the lower
/// one first.
pub proof fn lemma_pair_order_bounds(n: nat, t: int)
    requires
        n <= usize::MAX,
        0 <= t < pair_order(n).len(),
    ensures
        pair_order(n)[t].0 < pair_order(n)[t].1 < n,
{
    lemma_rows_bounds(0, n, t);
}

/// Every two positions of the collection meet: the pair `(i, j)` stands
/// somewhere in the order.
pub proof fn lemma_pair_order_complete(n: nat, i: int, j: int) -> (t: int)
    requires
        n <= usize::MAX,
        0 <= i < j < n,
    ensures
        0 <= t < pair_order(n).len(),
        pair_order(n)[t] == (i as usize, j as usize),
{
    lemma_rows_hold(0, n, i, j)
}

/// No two positions meet twice: the entries of the order differ from each
/// other.
pub proof fn lemma_pair_order_once(n: nat, s: int, t: int)
    requires
        n <= usize::MAX,
        0 <= s < pair_order(n).len(),
        0 <= t < pair_order(n).len(),
        s != t,
    ensures
        pair_order(n)[s] != pair_order(n)[t],
{
    if s < t {
        lemma_rows_differ(0, n, s, t);
    } else {
        lemma_rows_differ(0, n, t, s);
    }
}

#[verifier::external_type_specification]
#[verifier::external_body]
#[verifier::reject_recursive_types(T)]
pub struct ExComparer<'a, T: 'a>(Comparer<'a, T>);

/// The pairs of positions that a `Comparer` has yet to hand out, the next
/// one first.
pub uninterp spec fn upcoming(c: Comparer<()>) -> Seq<(usize, usize)>;

/// `self_compare::Comparer::new`, on a slice that only lends its length.
///
/// A fresh `Comparer` starts at the pair `(0, 1)`, so everything in
/// [`pair_order`] for the slice's length is still to come.
#[verifier::external_body]
pub(crate) fn comparer<'a>(slots: &'a Vec<()>) -> (c: Comparer<'a, ()>)
    ensures
        upcoming(c) == pair_order(slots@.len()),
{
    Comparer::new(slots.as_slice())
}

/// `self_compare::Comparer::next_enumerated`, keeping only the two positions.
///
/// It hands out the first pair that is still to come and moves on to the one
/// after it; once none is left it returns `None` and stays as it is.
#[verifier::external_body]
pub(crate) fn next_pair(c: &mut Comparer<()>) -> (next: Option<(usize, usize)>)
    ensures
        match next {
            Some(pair) => {
                &&& upcoming(*old(c)).len() > 0
                &&& pair == upcoming(*old(c))[0]
                &&& upcoming(*final(c)) == upcoming(*old(c)).drop_first()
            },
            None => upcoming(*old(c)).len() == 0 && upcoming(*final(c)) == upcoming(*old(c)),
        },
{
    c.next_enumerated().map(|((i, _), (j, _))| (i, j))
}

} // verus!
