//! Stable sorting of places by their keys.
use vstd::prelude::*;

verus! {

/// A key: compared by its first part, then by its second.
pub type Key = (i128, i64);

/// `a` sorts strictly before `b`: by key, then by place.
pub open spec fn before(keys: Seq<Key>, a: int, b: int) -> bool {
    let (x, y) = (keys[a], keys[b]);
    x.0 < y.0 || (x.0 == y.0 && (x.1 < y.1 || (x.1 == y.1 && a < b)))
}

/// The places are in stable ascending order of their keys.
pub open spec fn ordered(keys: Seq<Key>, order: Seq<usize>) -> bool {
    forall|i: int, j: int| 0 <= i < j < order.len() ==> before(keys, #[trigger] order[i] as int, #[trigger] order[j] as int)
}

/// The list holds each place of `lo..hi` and no other.
pub open spec fn places(order: Seq<usize>, lo: int, hi: int) -> bool {
    &&& order.len() == hi - lo
    &&& forall|i: int| 0 <= i < order.len() ==> lo <= #[trigger] order[i] < hi
    &&& forall|x: usize| lo <= x < hi ==> #[trigger] order.contains(x)
}

/// The stable order of all places.
pub open spec fn stable_order_of(keys: Seq<Key>, order: Seq<usize>) -> bool {
    ordered(keys, order) && places(order, 0, keys.len() as int)
}

/// The stable order of all places; there is exactly one.
pub open spec fn order_of(keys: Seq<Key>) -> Seq<usize> {
    choose|order: Seq<usize>| stable_order_of(keys, order)
}

fn key_before(keys: &Vec<Key>, a: usize, b: usize) -> (r: bool)
    requires
        a < keys@.len(),
        b < keys@.len(),
    ensures
        r == before(keys@, a as int, b as int),
{
    let x = keys[a];
    let y = keys[b];
    x.0 < y.0 || (x.0 == y.0 && (x.1 < y.1 || (x.1 == y.1 && a < b)))
}

fn merge(keys: &Vec<Key>, left: &Vec<usize>, right: &Vec<usize>, lo: usize, mid: usize, hi: usize) -> (out: Vec<usize>)
    requires
        lo <= mid <= hi <= keys@.len(),
        ordered(keys@, left@),
        ordered(keys@, right@),
        places(left@, lo as int, mid as int),
        places(right@, mid as int, hi as int),
    ensures
        ordered(keys@, out@),
        places(out@, lo as int, hi as int),
{
    let mut out: Vec<usize> = Vec::new();
    let mut i: usize = 0;
    let mut j: usize = 0;
    while i < left.len() || j < right.len()
        invariant
            lo <= mid <= hi <= keys@.len(),
            ordered(keys@, left@),
            ordered(keys@, right@),
            places(left@, lo as int, mid as int),
            places(right@, mid as int, hi as int),
            i <= left@.len(),
            j <= right@.len(),
            out@.len() == i + j,
            ordered(keys@, out@),
            forall|k: int| 0 <= k < out@.len() ==> lo <= #[trigger] out@[k] < hi,
            forall|k: int, a: int| 0 <= k < out@.len() && i <= a < left@.len() ==> before(keys@, #[trigger] out@[k] as int, #[trigger] left@[a] as int),
            forall|k: int, b: int| 0 <= k < out@.len() && j <= b < right@.len() ==> before(keys@, #[trigger] out@[k] as int, #[trigger] right@[b] as int),
            forall|a: int| 0 <= a < i ==> out@.contains(#[trigger] left@[a]),
            forall|b: int| 0 <= b < j ==> out@.contains(#[trigger] right@[b]),
        decreases left@.len() - i + right@.len() - j,
    {
        let ghost prev = out@;
        let take_left = if i >= left.len() {
            false
        } else if j >= right.len() {
            true
        } else {
            key_before(keys, left[i], right[j])
        };
        if take_left {
            let x: usize = left[i];
            out.push(x);
            proof {
                assert(out@.drop_last() =~= prev);
                assert(out@[prev.len() as int] == x);
                assert forall|k: int, b: int| 0 <= k < out@.len() && j <= b < right@.len() implies before(keys@, #[trigger] out@[k] as int, #[trigger] right@[b] as int) by {
                    if k == prev.len() {
                        assert(before(keys@, x as int, right@[j as int] as int));
                        if b > j {
                            assert(before(keys@, right@[j as int] as int, right@[b] as int));
                        }
                    } else {
                        assert(prev[k] == out@[k]);
                    }
                }
                assert forall|a: int| 0 <= a < i + 1 implies out@.contains(#[trigger] left@[a]) by {
                    if a < i {
                        let k = choose|k: int| 0 <= k < prev.len() && prev[k] == left@[a];
                        assert(prev.contains(left@[a]));
                        assert(out@[k] == left@[a]);
                    } else {
                        assert(out@[prev.len() as int] == left@[a]);
                    }
                }
                assert forall|b: int| 0 <= b < j implies out@.contains(#[trigger] right@[b]) by {
                    assert(prev.contains(right@[b]));
                    let k = choose|k: int| 0 <= k < prev.len() && prev[k] == right@[b];
                    assert(out@[k] == right@[b]);
                }
            }
            i = i + 1;
        } else {
            let x: usize = right[j];
            out.push(x);
            proof {
                assert(out@[prev.len() as int] == x);
                assert forall|k: int, a: int| 0 <= k < out@.len() && i <= a < left@.len() implies before(keys@, #[trigger] out@[k] as int, #[trigger] left@[a] as int) by {
                    if k == prev.len() {
                        assert(left@[i as int] < mid <= x);
                        assert(!before(keys@, left@[i as int] as int, x as int));
                        assert(before(keys@, x as int, left@[i as int] as int));
                        if a > i {
                            assert(before(keys@, left@[i as int] as int, left@[a] as int));
                        }
                    } else {
                        assert(prev[k] == out@[k]);
                    }
                }
                assert forall|b: int| 0 <= b < j + 1 implies out@.contains(#[trigger] right@[b]) by {
                    if b < j {
                        assert(prev.contains(right@[b]));
                        let k = choose|k: int| 0 <= k < prev.len() && prev[k] == right@[b];
                        assert(out@[k] == right@[b]);
                    } else {
                        assert(out@[prev.len() as int] == right@[b]);
                    }
                }
                assert forall|a: int| 0 <= a < i implies out@.contains(#[trigger] left@[a]) by {
                    assert(prev.contains(left@[a]));
                    let k = choose|k: int| 0 <= k < prev.len() && prev[k] == left@[a];
                    assert(out@[k] == left@[a]);
                }
            }
            j = j + 1;
        }
    }
    proof {
        assert forall|x: usize| lo <= x < hi implies #[trigger] out@.contains(x) by {
            if x < mid {
                assert(left@.contains(x));
                let a = choose|a: int| 0 <= a < left@.len() && left@[a] == x;
                assert(out@.contains(left@[a]));
            } else {
                assert(right@.contains(x));
                let b = choose|b: int| 0 <= b < right@.len() && right@[b] == x;
                assert(out@.contains(right@[b]));
            }
        }
    }
    out
}

fn sort_range(keys: &Vec<Key>, lo: usize, hi: usize) -> (out: Vec<usize>)
    requires
        lo <= hi <= keys@.len(),
    ensures
        ordered(keys@, out@),
        places(out@, lo as int, hi as int),
    decreases hi - lo,
{
    let mut out: Vec<usize> = Vec::new();
    if lo == hi {
        return out;
    }
    if hi - lo == 1 {
        out.push(lo);
        proof {
            assert forall|x: usize| lo <= x < hi implies #[trigger] out@.contains(x) by {
                assert(out@[0] == x);
            }
        }
        return out;
    }
    let mid: usize = lo + (hi - lo) / 2;
    let left = sort_range(keys, lo, mid);
    let right = sort_range(keys, mid, hi);
    merge(keys, &left, &right, lo, mid, hi)
}

/// The places of `keys` in stable ascending order of their keys.
pub fn stable_order(keys: &Vec<Key>) -> (r: Vec<usize>)
    ensures
        stable_order_of(keys@, r@),
        r@ == order_of(keys@),
{
    let r = sort_range(keys, 0, keys.len());
    proof {
        assert(stable_order_of(keys@, r@));
        law_stable_order_is_unique(keys@, r@, order_of(keys@));
    }
    r
}

/// There is only one stable order: two lists of the same places, each in
/// order, are the same list.
pub proof fn law_stable_order_is_unique(keys: Seq<Key>, a: Seq<usize>, b: Seq<usize>)
    requires
        stable_order_of(keys, a),
        stable_order_of(keys, b),
    ensures
        a == b,
{
    lemma_same_prefix(keys, a, b, a.len());
    assert(a =~= b);
}

proof fn lemma_same_prefix(keys: Seq<Key>, a: Seq<usize>, b: Seq<usize>, n: nat)
    requires
        stable_order_of(keys, a),
        stable_order_of(keys, b),
        n <= a.len(),
    ensures
        forall|i: int| 0 <= i < n ==> a[i] == b[i],
    decreases n,
{
    if n > 0 {
        lemma_same_prefix(keys, a, b, (n - 1) as nat);
        let m = n - 1;
        let x = a[m];
        let y = b[m];
        if x != y {
            assert(b.contains(x));
            assert(a.contains(y));
            let i = choose|i: int| 0 <= i < b.len() && b[i] == x;
            let j = choose|j: int| 0 <= j < a.len() && a[j] == y;
            if i < m {
                assert(a[i] == x);
                assert(before(keys, a[i] as int, a[m] as int));
            }
            if j < m {
                assert(b[j] == y);
                assert(before(keys, b[j] as int, b[m] as int));
            }
            assert(i > m && j > m);
            assert(before(keys, a[m] as int, a[j] as int));
            assert(before(keys, b[m] as int, b[i] as int));
        }
    }
}

/// Every list has a stable order.
pub proof fn law_a_stable_order_exists(keys: Seq<Key>)
    requires
        keys.len() <= usize::MAX,
    ensures
        stable_order_of(keys, order_of(keys)),
{
    let order = lemma_order(keys, keys.len());
    assert(stable_order_of(keys, order));
}

proof fn lemma_order(keys: Seq<Key>, n: nat) -> (order: Seq<usize>)
    requires
        n <= keys.len() <= usize::MAX,
    ensures
        ordered(keys, order),
        places(order, 0, n as int),
    decreases n,
{
    if n == 0 {
        Seq::empty()
    } else {
        let rest = lemma_order(keys, (n - 1) as nat);
        let x = n - 1;
        let p = lemma_cut(keys, rest, x, rest.len());
        let order = rest.insert(p, x as usize);
        assert forall|i: int, j: int| 0 <= i < j < order.len() implies before(
            keys,
            #[trigger] order[i] as int,
            #[trigger] order[j] as int,
        ) by {
            let a = if i < p {
                i
            } else {
                i - 1
            };
            let b = if j < p {
                j
            } else {
                j - 1
            };
            if i != p && j != p {
                assert(before(keys, rest[a] as int, rest[b] as int));
            } else if i == p {
                assert(order[j] == rest[j - 1]);
            } else {
                assert(order[i] == rest[i]);
            }
        }
        assert forall|y: usize| 0 <= y < n implies #[trigger] order.contains(y) by {
            if y == x {
                assert(order[p] == y);
            } else {
                assert(rest.contains(y));
                let q = choose|q: int| 0 <= q < rest.len() && rest[q] == y;
                if q < p {
                    assert(order[q] == y);
                } else {
                    assert(order[q + 1] == y);
                }
            }
        }
        order
    }
}

/// Where a place belongs among the first `m` of some places in order.
proof fn lemma_cut(keys: Seq<Key>, rest: Seq<usize>, x: int, m: nat) -> (p: int)
    requires
        ordered(keys, rest),
        m <= rest.len(),
        forall|i: int| 0 <= i < rest.len() ==> #[trigger] rest[i] < x,
    ensures
        0 <= p <= m,
        forall|i: int| 0 <= i < p ==> before(keys, #[trigger] rest[i] as int, x),
        forall|i: int| p <= i < m ==> before(keys, x, #[trigger] rest[i] as int),
    decreases m,
{
    if m == 0 {
        0
    } else if before(keys, rest[m - 1] as int, x) {
        assert forall|i: int| 0 <= i < m implies before(keys, #[trigger] rest[i] as int, x) by {
            if i < m - 1 {
                assert(before(keys, rest[i] as int, rest[m - 1] as int));
            }
        }
        m as int
    } else {
        lemma_cut(keys, rest, x, (m - 1) as nat)
    }
}

/// What is left by a filter is what stood in the list and passes.
pub(crate) proof fn lemma_filtered<A>(s: Seq<A>, p: spec_fn(A) -> bool, x: A)
    ensures
        s.filter(p).contains(x) <==> s.contains(x) && p(x),
{
    broadcast use vstd::seq_lib::group_filter_ensures;

    if s.filter(p).contains(x) {
        s.lemma_filter_contains_rev(p, x);
        let i = choose|i: int| 0 <= i < s.filter(p).len() && s.filter(p)[i] == x;
        assert(p(s.filter(p)[i]));
    }
    if s.contains(x) && p(x) {
        let i = choose|i: int| 0 <= i < s.len() && s[i] == x;
        assert(s.filter(p).contains(s[i]));
    }
}

} // verus!
