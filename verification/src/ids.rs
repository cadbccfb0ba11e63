//! Sorted lists of distinct token ids.
use vstd::prelude::*;

verus! {

/// That every id is above the one before it.
pub open spec fn ascending(ids: Seq<u32>) -> bool {
    forall|i: int, j: int| 0 <= i < j < ids.len() ==> #[trigger] ids[i] < #[trigger] ids[j]
}

/// That a sorted list holds exactly the ids of another list.
pub open spec fn distinct_of(sorted: Seq<u32>, ids: Seq<u32>) -> bool {
    &&& ascending(sorted)
    &&& forall|id: u32| #[trigger] sorted.contains(id) == ids.contains(id)
}

/// A list has one sorted list of distinct ids.
pub proof fn law_sorting_is_unique(a: Seq<u32>, b: Seq<u32>, ids: Seq<u32>)
    requires
        distinct_of(a, ids),
        distinct_of(b, ids),
    ensures
        a == b,
{
    assert forall|id: u32| #[trigger] a.contains(id) == b.contains(id) by {
        assert(a.contains(id) == ids.contains(id));
        assert(b.contains(id) == ids.contains(id));
    }
    lemma_same_ids(a, b);
}

/// Sorted lists of the same ids are the same.
proof fn lemma_same_ids(a: Seq<u32>, b: Seq<u32>)
    requires
        ascending(a),
        ascending(b),
        forall|id: u32| #[trigger] a.contains(id) == b.contains(id),
    ensures
        a == b,
    decreases a.len(),
{
    if a.len() == 0 {
        if b.len() > 0 {
            assert(b.contains(b[0]));
            assert(a.contains(b[0]));
        }
        assert(a =~= b);
    } else {
        assert(a.contains(a.last()));
        assert(b.contains(a.last()));
        assert(b.contains(b.last()));
        assert(a.contains(b.last()));
        let i = choose|i: int| 0 <= i < b.len() && b[i] == a.last();
        let j = choose|j: int| 0 <= j < a.len() && a[j] == b.last();
        assert(a.last() == b.last());
        let x = a.drop_last();
        let y = b.drop_last();
        assert forall|id: u32| #[trigger] x.contains(id) == y.contains(id) by {
            if x.contains(id) {
                let k = choose|k: int| 0 <= k < x.len() && x[k] == id;
                assert(a[k] == id);
                assert(a.contains(id));
                assert(b.contains(id));
                let m = choose|m: int| 0 <= m < b.len() && b[m] == id;
                assert(m < b.len() - 1);
                assert(y[m] == id);
            }
            if y.contains(id) {
                let k = choose|k: int| 0 <= k < y.len() && y[k] == id;
                assert(b[k] == id);
                assert(b.contains(id));
                assert(a.contains(id));
                let m = choose|m: int| 0 <= m < a.len() && a[m] == id;
                assert(m < a.len() - 1);
                assert(x[m] == id);
            }
        }
        lemma_same_ids(x, y);
        assert(a =~= x.push(a.last()));
        assert(b =~= y.push(b.last()));
    }
}

/// Where an id stands in a sorted list, or where it would stand.
pub fn locate(sorted: &[u32], id: u32) -> (result: Result<usize, usize>)
    ensures
        match result {
            Ok(at) => at < sorted@.len() && sorted@[at as int] == id,
            Err(at) => {
                &&& at <= sorted@.len()
                &&& ascending(sorted@) ==> {
                    &&& !sorted@.contains(id)
                    &&& forall|i: int| 0 <= i < at ==> #[trigger] sorted@[i] < id
                    &&& forall|i: int| at <= i < sorted@.len() ==> id < #[trigger] sorted@[i]
                }
            },
        },
{
    let mut low: usize = 0;
    let mut high: usize = sorted.len();
    while low < high
        invariant
            low <= high <= sorted@.len(),
            ascending(sorted@) ==> forall|i: int| 0 <= i < low ==> #[trigger] sorted@[i] < id,
            ascending(sorted@) ==> forall|i: int|
                high <= i < sorted@.len() ==> id < #[trigger] sorted@[i],
        decreases high - low,
    {
        let middle: usize = low + (high - low) / 2;
        if sorted[middle] == id {
            return Ok(middle);
        }
        if sorted[middle] < id {
            low = middle + 1;
        } else {
            high = middle;
        }
    }
    Err(low)
}

/// Whether an id stands in a sorted list.
pub fn holds(sorted: &[u32], id: u32) -> (found: bool)
    ensures
        found ==> sorted@.contains(id),
        ascending(sorted@) ==> found == sorted@.contains(id),
{
    match locate(sorted, id) {
        Ok(at) => {
            proof {
                assert(sorted@[at as int] == id);
            }
            true
        },
        Err(_) => false,
    }
}

/// One more id in its place of a sorted list.
pub open spec fn inserted(sorted: Seq<u32>, id: u32, next: Seq<u32>) -> bool {
    &&& ascending(next)
    &&& forall|x: u32| #[trigger] next.contains(x) == (sorted.contains(x) || x == id)
}

/// An id put in its place keeps the list sorted.
pub proof fn lemma_insert_keeps_order(sorted: Seq<u32>, id: u32, at: int)
    requires
        ascending(sorted),
        0 <= at <= sorted.len(),
        forall|i: int| 0 <= i < at ==> #[trigger] sorted[i] < id,
        forall|i: int| at <= i < sorted.len() ==> id < #[trigger] sorted[i],
    ensures
        inserted(sorted, id, sorted.insert(at, id)),
{
    let next = sorted.insert(at, id);
    assert forall|x: u32| #[trigger] next.contains(x) == (sorted.contains(x) || x == id) by {
        if next.contains(x) && x != id {
            let k = choose|k: int| 0 <= k < next.len() && next[k] == x;
            if k < at {
                assert(sorted[k] == x);
            } else {
                assert(sorted[k - 1] == x);
            }
        }
        if sorted.contains(x) {
            let k = choose|k: int| 0 <= k < sorted.len() && sorted[k] == x;
            if k < at {
                assert(next[k] == x);
            } else {
                assert(next[k + 1] == x);
            }
        }
        if x == id {
            assert(next[at] == id);
        }
    }
    assert forall|i: int, j: int| 0 <= i < j < next.len() implies #[trigger] next[i]
        < #[trigger] next[j] by {
        let a = if i < at {
            i
        } else {
            i - 1
        };
        let b = if j < at {
            j
        } else {
            j - 1
        };
        if i != at && j != at {
            assert(sorted[a] < sorted[b]);
        } else if i == at {
            assert(id < sorted[b]);
        } else {
            assert(sorted[a] < id);
        }
    }
}

/// The distinct ids of a list, sorted.
pub fn sorted_distinct(ids: &[u32]) -> (sorted: Vec<u32>)
    ensures
        distinct_of(sorted@, ids@),
        sorted@.len() <= ids@.len(),
{
    let mut sorted: Vec<u32> = Vec::new();
    for i in 0..ids.len()
        invariant
            distinct_of(sorted@, ids@.take(i as int)),
            sorted@.len() <= i,
    {
        let id: u32 = ids[i];
        let ghost before = sorted@;
        proof {
            assert(ids@.take(i + 1) =~= ids@.take(i as int).push(id));
            assert forall|x: u32| #[trigger] ids@.take(i + 1).contains(x) == (ids@.take(
                i as int,
            ).contains(x) || x == id) by {
                let short = ids@.take(i as int);
                if short.contains(x) {
                    let k = choose|k: int| 0 <= k < short.len() && short[k] == x;
                    assert(ids@.take(i + 1)[k] == x);
                }
                if x == id {
                    assert(ids@.take(i + 1)[i as int] == x);
                }
                if ids@.take(i + 1).contains(x) && x != id {
                    let long = ids@.take(i + 1);
                    let k = choose|k: int| 0 <= k < long.len() && long[k] == x;
                    assert(short[k] == x);
                }
            }
        }
        match locate(sorted.as_slice(), id) {
            Ok(at) => {
                proof {
                    assert(before[at as int] == id);
                    assert(before.contains(id));
                }
            },
            Err(at) => {
                proof {
                    lemma_insert_keeps_order(before, id, at as int);
                }
                sorted.insert(at, id);
            },
        }
    }
    proof {
        assert(ids@.take(ids@.len() as int) =~= ids@);
    }
    sorted
}

} // verus!
