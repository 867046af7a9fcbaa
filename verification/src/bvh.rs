//! The shape of a bounding volume hierarchy: how a list of objects becomes
//! a node, and the order in which a node hands its objects to its two
//! children. Objects are known here by their keys alone, whole numbers that
//! stand in the order of the objects' lower bounds along the axis of the
//! split.
use vstd::prelude::*;

verus! {

/// What becomes of a list of objects.
#[derive(Debug, Clone, Copy, PartialEq, Eq, Structural)]
pub enum NodePlan {
    /// One object: it is both children of the node.
    Single,
    /// Two objects: the first is the left child, the second the right.
    Pair,
    /// More: the list is put in order and cut in two halves, and each half
    /// becomes a node of its own.
    Split,
}

/// What becomes of a list of `count` objects.
pub fn plan(count: usize) -> (r: NodePlan)
    requires
        count > 0,
    ensures
        r == if count == 1 {
            NodePlan::Single
        } else if count == 2 {
            NodePlan::Pair
        } else {
            NodePlan::Split
        },
{
    if count == 1 {
        NodePlan::Single
    } else if count == 2 {
        NodePlan::Pair
    } else {
        NodePlan::Split
    }
}

/// Whether the object at place `p` comes before the one at place `q`: its
/// key is smaller, or the keys are equal and it stood first.
pub open spec fn before(keys: Seq<i64>, p: int, q: int) -> bool {
    keys[p] < keys[q] || (keys[p] == keys[q] && p < q)
}

/// `order` lists places of `keys`, each before the next.
pub open spec fn ascending(keys: Seq<i64>, order: Seq<usize>) -> bool {
    forall|a: int, b: int|
        0 <= a < b < order.len() ==> before(
            keys,
            #[trigger] order[a] as int,
            #[trigger] order[b] as int,
        )
}

/// `order` lists every place from `lo` up to, not including, `hi`, and no
/// other.
pub open spec fn lists_range(order: Seq<usize>, lo: int, hi: int) -> bool {
    &&& order.len() == hi - lo
    &&& forall|a: int| 0 <= a < order.len() ==> lo <= #[trigger] order[a] < hi
    &&& forall|p: int| lo <= p < hi ==> #[trigger] order.contains(p as usize)
}

fn comes_before(keys: &Vec<i64>, p: usize, q: usize) -> (r: bool)
    requires
        p < keys@.len(),
        q < keys@.len(),
    ensures
        r == before(keys@, p as int, q as int),
{
    keys[p] < keys[q] || (keys[p] == keys[q] && p < q)
}

fn merge(keys: &Vec<i64>, left: &Vec<usize>, right: &Vec<usize>, Ghost(lo): Ghost<int>, Ghost(
    mid,
): Ghost<int>, Ghost(hi): Ghost<int>) -> (out: Vec<usize>)
    requires
        0 <= lo <= mid <= hi <= keys@.len(),
        lists_range(left@, lo, mid),
        lists_range(right@, mid, hi),
        ascending(keys@, left@),
        ascending(keys@, right@),
    ensures
        lists_range(out@, lo, hi),
        ascending(keys@, out@),
{
    let mut out: Vec<usize> = Vec::new();
    let mut i: usize = 0;
    let mut j: usize = 0;
    while i < left.len() || j < right.len()
        invariant
            0 <= lo <= mid <= hi <= keys@.len(),
            lists_range(left@, lo, mid),
            lists_range(right@, mid, hi),
            ascending(keys@, left@),
            ascending(keys@, right@),
            i <= left@.len(),
            j <= right@.len(),
            out@.len() == i + j,
            forall|a: int| 0 <= a < out@.len() ==> lo <= #[trigger] out@[a] < hi,
            ascending(keys@, out@),
            forall|a: int, b: int|
                0 <= a < out@.len() && i <= b < left@.len() ==> before(
                    keys@,
                    #[trigger] out@[a] as int,
                    #[trigger] left@[b] as int,
                ),
            forall|a: int, b: int|
                0 <= a < out@.len() && j <= b < right@.len() ==> before(
                    keys@,
                    #[trigger] out@[a] as int,
                    #[trigger] right@[b] as int,
                ),
            forall|a: int| 0 <= a < i ==> out@.contains(#[trigger] left@[a]),
            forall|a: int| 0 <= a < j ==> out@.contains(#[trigger] right@[a]),
        decreases left@.len() - i + right@.len() - j,
    {
        let ghost prior = out@;
        let take_left = if i >= left.len() {
            false
        } else if j >= right.len() {
            true
        } else {
            comes_before(keys, left[i], right[j])
        };
        if take_left {
            let p = left[i];
            out.push(p);
            proof {
                assert(out@[prior.len() as int] == p);
                assert forall|a: int| 0 <= a < i + 1 implies out@.contains(#[trigger] left@[a]) by {
                    if a < i {
                        let w = choose|w: int| 0 <= w < prior.len() && prior[w] == left@[a];
                        assert(out@[w] == left@[a]);
                    }
                }
                assert forall|a: int| 0 <= a < j implies out@.contains(#[trigger] right@[a]) by {
                    let w = choose|w: int| 0 <= w < prior.len() && prior[w] == right@[a];
                    assert(out@[w] == right@[a]);
                }
            }
            i = i + 1;
        } else {
            let q = right[j];
            out.push(q);
            proof {
                assert(out@[prior.len() as int] == q);
                assert forall|a: int| 0 <= a < i implies out@.contains(#[trigger] left@[a]) by {
                    let w = choose|w: int| 0 <= w < prior.len() && prior[w] == left@[a];
                    assert(out@[w] == left@[a]);
                }
                assert forall|a: int| 0 <= a < j + 1 implies out@.contains(
                    #[trigger] right@[a],
                ) by {
                    if a < j {
                        let w = choose|w: int| 0 <= w < prior.len() && prior[w] == right@[a];
                        assert(out@[w] == right@[a]);
                    }
                }
            }
            j = j + 1;
        }
    }
    proof {
        assert forall|p: int| lo <= p < hi implies #[trigger] out@.contains(p as usize) by {
            if p < mid {
                assert(left@.contains(p as usize));
                let a = choose|a: int| 0 <= a < left@.len() && left@[a] == p as usize;
                assert(out@.contains(left@[a]));
            } else {
                assert(right@.contains(p as usize));
                let a = choose|a: int| 0 <= a < right@.len() && right@[a] == p as usize;
                assert(out@.contains(right@[a]));
            }
        }
    }
    out
}

fn sort_range(keys: &Vec<i64>, lo: usize, hi: usize) -> (order: Vec<usize>)
    requires
        lo <= hi <= keys@.len(),
    ensures
        lists_range(order@, lo as int, hi as int),
        ascending(keys@, order@),
    decreases hi - lo,
{
    if hi - lo == 0 {
        Vec::new()
    } else if hi - lo == 1 {
        let mut order: Vec<usize> = Vec::new();
        order.push(lo);
        proof {
            assert(order@[0] == lo);
        }
        order
    } else {
        let mid = lo + (hi - lo) / 2;
        let left = sort_range(keys, lo, mid);
        let right = sort_range(keys, mid, hi);
        merge(keys, &left, &right, Ghost(lo as int), Ghost(mid as int), Ghost(hi as int))
    }
}

/// The places of `keys` in the order of their keys; where keys are equal,
/// the place that stood first comes first.
pub fn sorted_order(keys: &Vec<i64>) -> (order: Vec<usize>)
    ensures
        lists_range(order@, 0, keys@.len() as int),
        ascending(keys@, order@),
{
    sort_range(keys, 0, keys.len())
}

/// Hands the objects with the keys `keys` to the two children of a node:
/// the places of the first half of the objects, in the order of their keys,
/// and those of the rest. Of an odd number the right child gets one more.
pub fn median_split(keys: &Vec<i64>) -> (r: (Vec<usize>, Vec<usize>))
    ensures
        r.0@.len() == keys@.len() / 2,
        lists_range(r.0@ + r.1@, 0, keys@.len() as int),
        ascending(keys@, r.0@ + r.1@),
{
    let mut left = sorted_order(keys);
    let ghost order = left@;
    let right = left.split_off(keys.len() / 2);
    proof {
        assert(left@ + right@ =~= order);
    }
    (left, right)
}

/// Only one order is ascending and lists every place once: two such orders
/// are the same.
pub proof fn lemma_order_is_unique(keys: Seq<i64>, first: Seq<usize>, second: Seq<usize>)
    requires
        keys.len() <= usize::MAX,
        lists_range(first, 0, keys.len() as int),
        lists_range(second, 0, keys.len() as int),
        ascending(keys, first),
        ascending(keys, second),
    ensures
        first == second,
{
    let n = keys.len() as int;
    if n > 0 {
        assert forall|a: int| 0 <= a < n implies first[a] == second[a] by {
            lemma_same_at(keys, first, second, a);
        }
    }
    assert(first =~= second);
}

/// The number of places of `order` that hold an object which comes before
/// the object at place `p`.
spec fn rank(keys: Seq<i64>, order: Seq<usize>, p: int) -> nat
    decreases order.len(),
{
    if order.len() == 0 {
        0
    } else {
        rank(keys, order.drop_last(), p) + if before(keys, order.last() as int, p) {
            1nat
        } else {
            0nat
        }
    }
}

proof fn lemma_rank_of_prefix(keys: Seq<i64>, order: Seq<usize>, a: int, len: int)
    requires
        ascending(keys, order),
        0 <= a < order.len(),
        0 <= len <= order.len(),
        forall|k: int| 0 <= k < order.len() ==> 0 <= #[trigger] order[k] < keys.len(),
    ensures
        rank(keys, order.take(len), order[a] as int) == if len <= a {
            len
        } else {
            a
        },
    decreases len,
{
    if len > 0 {
        assert(order.take(len).drop_last() =~= order.take(len - 1));
        assert(order.take(len).last() == order[len - 1]);
        lemma_rank_of_prefix(keys, order, a, len - 1);
        if len - 1 < a {
            assert(before(keys, order[len - 1] as int, order[a] as int));
        } else if len - 1 > a {
            assert(before(keys, order[a] as int, order[len - 1] as int));
        }
    }
}

/// The number of places from `lo` up to, not including, `hi` whose object
/// comes before the object at place `p`.
spec fn count_before(keys: Seq<i64>, lo: int, hi: int, p: int) -> nat
    decreases hi - lo,
{
    if hi <= lo {
        0
    } else {
        count_before(keys, lo, hi - 1, p) + if before(keys, hi - 1, p) {
            1nat
        } else {
            0nat
        }
    }
}

proof fn lemma_rank_counts(keys: Seq<i64>, order: Seq<usize>, p: int)
    requires
        order.len() <= usize::MAX,
        lists_range(order, 0, order.len() as int),
        forall|a: int, b: int| 0 <= a < b < order.len() ==> order[a] != order[b],
    ensures
        rank(keys, order, p) == count_before(keys, 0, order.len() as int, p),
    decreases order.len(),
{
    let n = order.len() as int;
    if n > 0 {
        let top = (n - 1) as usize;
        assert(order.contains(top));
        let at = choose|at: int| 0 <= at < n && order[at] == top;
        let rest = order.remove(at);
        assert forall|q: int| 0 <= q < n - 1 implies #[trigger] rest.contains(q as usize) by {
            assert(order.contains(q as usize));
            let w = choose|w: int| 0 <= w < n && order[w] == q as usize;
            assert(w != at);
            if w < at {
                assert(rest[w] == q as usize);
            } else {
                assert(rest[w - 1] == order[w]);
            }
        }
        assert forall|a: int| 0 <= a < rest.len() implies 0 <= #[trigger] rest[a] < n - 1 by {
            if a < at {
                assert(rest[a] == order[a]);
            } else {
                assert(rest[a] == order[a + 1]);
            }
        }
        assert forall|a: int, b: int| 0 <= a < b < rest.len() implies rest[a] != rest[b] by {
            let a2 = if a < at {
                a
            } else {
                a + 1
            };
            let b2 = if b < at {
                b
            } else {
                b + 1
            };
            assert(rest[a] == order[a2] && rest[b] == order[b2]);
        }
        lemma_rank_counts(keys, rest, p);
        lemma_rank_remove(keys, order, at, p);
    }
}

proof fn lemma_rank_remove(keys: Seq<i64>, order: Seq<usize>, at: int, p: int)
    requires
        0 <= at < order.len(),
    ensures
        rank(keys, order, p) == rank(keys, order.remove(at), p) + if before(
            keys,
            order[at] as int,
            p,
        ) {
            1nat
        } else {
            0nat
        },
    decreases order.len(),
{
    if at == order.len() - 1 {
        assert(order.remove(at) =~= order.drop_last());
    } else {
        assert(order.remove(at).drop_last() =~= order.drop_last().remove(at));
        assert(order.remove(at).last() == order.last());
        lemma_rank_remove(keys, order.drop_last(), at, p);
    }
}

proof fn lemma_distinct(keys: Seq<i64>, order: Seq<usize>)
    requires
        ascending(keys, order),
    ensures
        forall|a: int, b: int| 0 <= a < b < order.len() ==> order[a] != order[b],
{
    assert forall|a: int, b: int| 0 <= a < b < order.len() implies order[a] != order[b] by {
        assert(before(keys, order[a] as int, order[b] as int));
    }
}

proof fn lemma_same_at(keys: Seq<i64>, first: Seq<usize>, second: Seq<usize>, a: int)
    requires
        lists_range(first, 0, keys.len() as int),
        lists_range(second, 0, keys.len() as int),
        ascending(keys, first),
        ascending(keys, second),
        0 <= a < keys.len() <= usize::MAX,
    ensures
        first[a] == second[a],
{
    let n = keys.len() as int;
    let p = first[a];
    assert(second.contains((p as int) as usize));
    let b = choose|b: int| 0 <= b < n && second[b] == p;
    lemma_distinct(keys, first);
    lemma_distinct(keys, second);
    lemma_rank_of_prefix(keys, first, a, n);
    lemma_rank_of_prefix(keys, second, b, n);
    assert(first.take(n) =~= first);
    assert(second.take(n) =~= second);
    lemma_rank_counts(keys, first, p as int);
    lemma_rank_counts(keys, second, p as int);
}

} // verus!
