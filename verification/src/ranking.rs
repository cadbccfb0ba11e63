//! Taking the largest of what is left, over and over.
use vstd::prelude::*;
use crate::arith;
use crate::arith::{relation, Arithmetic, Relation};

verus! {

/// The first largest of the first `n` values that are not taken, where `op` tells what is below
/// what.
pub open spec fn next_largest<A: Arithmetic>(
    op: Relation,
    x: Seq<A::Scalar>,
    taken: Seq<bool>,
    n: int,
) -> Option<int>
    decreases n,
{
    if n <= 0 {
        None
    } else {
        let best = next_largest::<A>(op, x, taken, n - 1);
        let wins = match best {
            None => true,
            Some(b) => arith::rel::<A>(op, x[b], x[n - 1]),
        };
        if !taken[n - 1] && wins {
            Some(n - 1)
        } else {
            best
        }
    }
}

/// What is taken after `rounds` rounds of taking the largest value left.
pub open spec fn taken_after<A: Arithmetic>(
    op: Relation,
    x: Seq<A::Scalar>,
    taken: Seq<bool>,
    rounds: int,
) -> Seq<bool>
    decreases rounds,
{
    if rounds <= 0 {
        taken
    } else {
        let earlier = taken_after::<A>(op, x, taken, rounds - 1);
        match next_largest::<A>(op, x, earlier, x.len() as int) {
            Some(t) => earlier.update(t, true),
            None => earlier,
        }
    }
}

/// How many of the first `n` marks are set.
pub open spec fn count_set(marks: Seq<bool>, n: int) -> int
    decreases n,
{
    if n <= 0 {
        0
    } else {
        count_set(marks, n - 1) + if marks[n - 1] {
            1int
        } else {
            0
        }
    }
}

/// That `op` orders the values of `x` weakly.
pub open spec fn weakly_ordered<A: Arithmetic>(op: Relation, x: Seq<A::Scalar>) -> bool {
    &&& forall|i: int, j: int, k: int|
        0 <= i < x.len() && 0 <= j < x.len() && 0 <= k < x.len() && #[trigger] arith::rel::<A>(
            op,
            x[i],
            x[j],
        ) && #[trigger] arith::rel::<A>(op, x[j], x[k]) ==> arith::rel::<A>(op, x[i], x[k])
    &&& forall|i: int| 0 <= i < x.len() ==> !#[trigger] arith::rel::<A>(op, x[i], x[i])
    &&& forall|i: int, j: int, k: int|
        0 <= i < x.len() && 0 <= j < x.len() && 0 <= k < x.len() && #[trigger] arith::rel::<A>(
            op,
            x[i],
            x[k],
        ) ==> arith::rel::<A>(op, x[i], x[j]) || #[trigger] arith::rel::<A>(op, x[j], x[k])
}

/// The scan stays inside its bounds and finds a value that is not taken.
pub proof fn lemma_next_is_left<A: Arithmetic>(
    op: Relation,
    x: Seq<A::Scalar>,
    taken: Seq<bool>,
    n: int,
)
    requires
        0 <= n <= x.len(),
        taken.len() == x.len(),
    ensures
        next_largest::<A>(op, x, taken, n) matches Some(t) ==> 0 <= t < n && !taken[t],
        (next_largest::<A>(op, x, taken, n) is None) == (forall|u: int|
            0 <= u < n ==> #[trigger] taken[u]),
    decreases n,
{
    if n > 0 {
        lemma_next_is_left::<A>(op, x, taken, n - 1);
        if next_largest::<A>(op, x, taken, n) is None {
            assert forall|u: int| 0 <= u < n implies #[trigger] taken[u] by {}
        }
    }
}

/// The scan takes the first largest value left: nothing left is above it, and everything left
/// before it is below it.
pub proof fn law_next_is_the_first_largest<A: Arithmetic>(
    op: Relation,
    x: Seq<A::Scalar>,
    taken: Seq<bool>,
    n: int,
)
    requires
        0 <= n <= x.len(),
        taken.len() == x.len(),
        weakly_ordered::<A>(op, x),
    ensures
        match next_largest::<A>(op, x, taken, n) {
            Some(t) => {
                &&& forall|u: int|
                    0 <= u < n && !taken[u] ==> !#[trigger] arith::rel::<A>(op, x[t], x[u])
                &&& forall|u: int|
                    0 <= u < t && !taken[u] ==> #[trigger] arith::rel::<A>(op, x[u], x[t])
            },
            None => forall|u: int| 0 <= u < n ==> #[trigger] taken[u],
        },
    decreases n,
{
    if n > 0 {
        law_next_is_the_first_largest::<A>(op, x, taken, n - 1);
        lemma_next_is_left::<A>(op, x, taken, n - 1);
        lemma_next_is_left::<A>(op, x, taken, n);
        if let Some(b) = next_largest::<A>(op, x, taken, n - 1) {
            if !taken[n - 1] && arith::rel::<A>(op, x[b], x[n - 1]) {
                assert forall|u: int| 0 <= u < n && !taken[u] implies !#[trigger] arith::rel::<A>(
                    op,
                    x[n - 1],
                    x[u],
                ) by {
                    if arith::rel::<A>(op, x[n - 1], x[u]) {
                        assert(arith::rel::<A>(op, x[b], x[n - 1]));
                        assert(arith::rel::<A>(op, x[b], x[u]));
                    }
                }
                assert forall|u: int|
                    0 <= u < n - 1 && !taken[u] implies #[trigger] arith::rel::<A>(
                    op,
                    x[u],
                    x[n - 1],
                ) by {
                    assert(arith::rel::<A>(op, x[b], x[u]) || arith::rel::<A>(
                        op,
                        x[u],
                        x[n - 1],
                    ));
                }
            }
        }
    }
}

/// The rounds mark values and nothing else.
pub proof fn lemma_taken_len<A: Arithmetic>(
    op: Relation,
    x: Seq<A::Scalar>,
    taken: Seq<bool>,
    rounds: int,
)
    requires
        taken.len() == x.len(),
    ensures
        taken_after::<A>(op, x, taken, rounds).len() == x.len(),
    decreases rounds,
{
    if rounds > 0 {
        lemma_taken_len::<A>(op, x, taken, rounds - 1);
        lemma_next_is_left::<A>(
            op,
            x,
            taken_after::<A>(op, x, taken, rounds - 1),
            x.len() as int,
        );
    }
}

/// Setting a mark that was not set adds one.
proof fn lemma_count_update(marks: Seq<bool>, t: int, n: int)
    requires
        0 <= t < marks.len(),
        0 <= n <= marks.len(),
        !marks[t],
    ensures
        count_set(marks.update(t, true), n) == count_set(marks, n) + if t < n {
            1int
        } else {
            0
        },
    decreases n,
{
    if n > 0 {
        lemma_count_update(marks, t, n - 1);
    }
}

/// No more marks are set than there are, all count where all are set, and none where none is.
pub proof fn lemma_count_bounds(marks: Seq<bool>, n: int)
    requires
        0 <= n <= marks.len(),
    ensures
        0 <= count_set(marks, n) <= n,
        (forall|i: int| 0 <= i < n ==> #[trigger] marks[i]) ==> count_set(marks, n) == n,
        (forall|i: int| 0 <= i < n ==> !#[trigger] marks[i]) ==> count_set(marks, n) == 0,
    decreases n,
{
    if n > 0 {
        lemma_count_bounds(marks, n - 1);
    }
}

/// Where the values are weakly ordered, what the rounds take are the largest: every round takes
/// one more until none is left, and nothing left is above anything a round has taken.
pub proof fn law_taken_are_the_largest<A: Arithmetic>(
    op: Relation,
    x: Seq<A::Scalar>,
    taken: Seq<bool>,
    rounds: int,
)
    requires
        0 <= rounds,
        taken.len() == x.len(),
        weakly_ordered::<A>(op, x),
    ensures
        ({
            let n = x.len() as int;
            let after = taken_after::<A>(op, x, taken, rounds);
            let before = count_set(taken, n);
            &&& after.len() == n
            &&& count_set(after, n) == if before + rounds <= n {
                before + rounds
            } else {
                n
            }
            &&& forall|k: int| 0 <= k < n && taken[k] ==> #[trigger] after[k]
            &&& forall|k: int, u: int|
                0 <= k < n && 0 <= u < n && after[k] && !taken[k] && !after[u]
                    ==> !#[trigger] arith::rel::<A>(op, x[k], x[u])
        }),
    decreases rounds,
{
    let n = x.len() as int;
    lemma_count_bounds(taken, n);
    if rounds > 0 {
        law_taken_are_the_largest::<A>(op, x, taken, rounds - 1);
        let earlier = taken_after::<A>(op, x, taken, rounds - 1);
        law_next_is_the_first_largest::<A>(op, x, earlier, n);
        lemma_next_is_left::<A>(op, x, earlier, n);
        lemma_count_bounds(earlier, n);
        match next_largest::<A>(op, x, earlier, n) {
            Some(t) => {
                lemma_count_update(earlier, t, n);
                lemma_count_bounds(earlier.update(t, true), n);
            },
            None => {},
        }
    }
}

/// The first largest value left, found by one scan.
pub fn find_largest<A: Arithmetic>(op: Relation, x: &[A::Scalar], taken: &Vec<bool>) -> (best:
    Option<usize>)
    requires
        taken@.len() == x@.len(),
    ensures
        best matches Some(t) ==> t < x@.len() && !taken@[t as int],
        best is None ==> forall|u: int| 0 <= u < x@.len() ==> #[trigger] taken@[u],
        arith::pure::<A>() ==> match best {
            Some(t) => next_largest::<A>(op, x@, taken@, x@.len() as int) == Some(t as int),
            None => next_largest::<A>(op, x@, taken@, x@.len() as int) is None,
        },
{
    let mut best: Option<usize> = None;
    for t in 0..x.len()
        invariant
            taken@.len() == x@.len(),
            best matches Some(b) ==> b < t && !taken@[b as int],
            best is None ==> forall|u: int| 0 <= u < t ==> #[trigger] taken@[u],
            arith::pure::<A>() ==> match best {
                Some(b) => next_largest::<A>(op, x@, taken@, t as int) == Some(b as int),
                None => next_largest::<A>(op, x@, taken@, t as int) is None,
            },
    {
        if !taken[t] {
            match best {
                None => {
                    best = Some(t);
                },
                Some(b) => {
                    if relation::<A>(op, x[b], x[t]) {
                        best = Some(t);
                    }
                },
            }
        }
    }
    best
}

/// Takes the largest value left, `rounds` times.
pub fn take_largest<A: Arithmetic>(
    op: Relation,
    x: &[A::Scalar],
    taken: Vec<bool>,
    rounds: usize,
) -> (after: Vec<bool>)
    requires
        taken@.len() == x@.len(),
    ensures
        after@.len() == x@.len(),
        arith::pure::<A>() ==> after@ == taken_after::<A>(op, x@, taken@, rounds as int),
{
    let ghost start = taken@;
    let mut after = taken;
    for round in 0..rounds
        invariant
            start.len() == x@.len(),
            after@.len() == x@.len(),
            arith::pure::<A>() ==> after@ == taken_after::<A>(op, x@, start, round as int),
    {
        match find_largest::<A>(op, x, &after) {
            Some(t) => {
                after[t] = true;
            },
            None => {},
        }
    }
    after
}

} // verus!
