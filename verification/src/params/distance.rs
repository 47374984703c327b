//! Edit distance, for hints on mistyped names.
use vstd::prelude::*;
use crate::text::chars_of;

verus! {

/// The smaller of two numbers.
pub open spec fn min2(a: nat, b: nat) -> nat {
    if a <= b {
        a
    } else {
        b
    }
}

/// The Levenshtein distance: the fewest single-character insertions, removals
/// and replacements that turn one string into the other.
pub open spec fn distance(a: Seq<char>, b: Seq<char>) -> nat
    decreases a.len() + b.len(),
{
    if a.len() == 0 {
        b.len()
    } else if b.len() == 0 {
        a.len()
    } else {
        let cost = if a.last() == b.last() {
            0nat
        } else {
            1nat
        };
        min2(
            min2(distance(a.drop_last(), b) + 1, distance(a, b.drop_last()) + 1),
            distance(a.drop_last(), b.drop_last()) + cost,
        )
    }
}

proof fn lemma_distance_bound(a: Seq<char>, b: Seq<char>)
    ensures
        distance(a, b) <= a.len() + b.len(),
    decreases a.len() + b.len(),
{
    if a.len() > 0 && b.len() > 0 {
        lemma_distance_bound(a.drop_last(), b);
    }
}

/// The distance between two strings.
pub fn edit_distance(a: &str, b: &str) -> (r: usize)
    requires
        a@.len() + b@.len() < usize::MAX,
    ensures
        r == distance(a@, b@),
{
    let x = chars_of(a);
    let y = chars_of(b);
    let n: usize = y.len();
    let mut prev: Vec<usize> = Vec::new();
    let mut k: usize = 0;
    while k <= n
        invariant
            n == y@.len(),
            n < usize::MAX,
            k <= n + 1,
            prev@.len() == k,
            forall|j: int|
                0 <= j < k ==> #[trigger] prev@[j] == distance(
                    x@.subrange(0, 0),
                    y@.subrange(0, j),
                ),
        decreases n + 1 - k,
    {
        prev.push(k);
        k = k + 1;
    }
    let mut i: usize = 0;
    while i < x.len()
        invariant
            n == y@.len(),
            i <= x@.len(),
            x@.len() + y@.len() < usize::MAX,
            prev@.len() == n + 1,
            forall|j: int|
                0 <= j <= n ==> #[trigger] prev@[j] == distance(
                    x@.subrange(0, i as int),
                    y@.subrange(0, j),
                ),
        decreases x@.len() - i,
    {
        let ghost pa = x@.subrange(0, i as int);
        let ghost pb = x@.subrange(0, i + 1);
        proof {
            assert(pb.drop_last() =~= pa);
        }
        let mut cur: Vec<usize> = Vec::new();
        cur.push(i + 1);
        let mut j: usize = 0;
        while j < n
            invariant
                n == y@.len(),
                i < x@.len(),
                j <= n,
                x@.len() + y@.len() < usize::MAX,
                pa == x@.subrange(0, i as int),
                pb == x@.subrange(0, i + 1),
                pb.drop_last() == pa,
                prev@.len() == n + 1,
                cur@.len() == j + 1,
                forall|k: int|
                    0 <= k <= n ==> #[trigger] prev@[k] == distance(pa, y@.subrange(0, k)),
                forall|k: int|
                    0 <= k <= j ==> #[trigger] cur@[k] == distance(pb, y@.subrange(0, k)),
            decreases n - j,
        {
            let ghost qa = y@.subrange(0, j as int);
            let ghost qb = y@.subrange(0, j + 1);
            proof {
                assert(qb.drop_last() =~= qa);
                assert(pb.last() == x@[i as int]);
                assert(qb.last() == y@[j as int]);
                lemma_distance_bound(pa, qb);
                lemma_distance_bound(pb, qa);
                lemma_distance_bound(pa, qa);
            }
            let cost: usize = if x[i] == y[j] {
                0
            } else {
                1
            };
            let up: usize = prev[j + 1] + 1;
            let left: usize = cur[j] + 1;
            let diagonal: usize = prev[j] + cost;
            let mut best: usize = if up <= left {
                up
            } else {
                left
            };
            if diagonal < best {
                best = diagonal;
            }
            cur.push(best);
            j = j + 1;
        }
        prev = cur;
        i = i + 1;
    }
    proof {
        assert(x@.subrange(0, i as int) =~= x@);
        assert(y@.subrange(0, n as int) =~= y@);
    }
    prev[n]
}

/// The distance is the same both ways.
pub proof fn law_distance_is_symmetric(a: Seq<char>, b: Seq<char>)
    ensures
        distance(a, b) == distance(b, a),
    decreases a.len() + b.len(),
{
    if a.len() > 0 && b.len() > 0 {
        law_distance_is_symmetric(a.drop_last(), b);
        law_distance_is_symmetric(a, b.drop_last());
        law_distance_is_symmetric(a.drop_last(), b.drop_last());
    }
}

/// Only equal strings are at distance zero.
pub proof fn law_zero_distance_means_equal(a: Seq<char>, b: Seq<char>)
    ensures
        distance(a, b) == 0 <==> a == b,
    decreases a.len() + b.len(),
{
    if a.len() > 0 && b.len() > 0 {
        law_zero_distance_means_equal(a.drop_last(), b.drop_last());
        if a == b {
            assert(a.drop_last() =~= b.drop_last());
        }
        if distance(a, b) == 0 {
            assert(a.drop_last() == b.drop_last());
            assert(a.last() == b.last());
            assert(a =~= b.drop_last().push(b.last()));
            assert(b =~= b.drop_last().push(b.last()));
        }
    } else if a.len() == 0 && b.len() == 0 {
        assert(a =~= b);
    }
}

/// The distance is at least the difference in length and at most the longer
/// length.
pub proof fn law_distance_is_bounded(a: Seq<char>, b: Seq<char>)
    ensures
        distance(a, b) >= a.len() - b.len(),
        distance(a, b) >= b.len() - a.len(),
        distance(a, b) <= a.len() || distance(a, b) <= b.len(),
    decreases a.len() + b.len(),
{
    if a.len() > 0 && b.len() > 0 {
        law_distance_is_bounded(a.drop_last(), b);
        law_distance_is_bounded(a, b.drop_last());
        law_distance_is_bounded(a.drop_last(), b.drop_last());
    }
}

/// The distance over a detour is no shorter.
pub proof fn law_triangle_inequality(a: Seq<char>, b: Seq<char>, c: Seq<char>)
    ensures
        distance(a, c) <= distance(a, b) + distance(b, c),
    decreases a.len() + b.len() + c.len(),
{
    law_distance_is_bounded(a, b);
    law_distance_is_bounded(b, c);
    law_distance_is_bounded(a, c);
    if a.len() > 0 && b.len() > 0 && c.len() > 0 {
        let (p, q, r) = (a.drop_last(), b.drop_last(), c.drop_last());
        law_triangle_inequality(p, b, c);
        law_triangle_inequality(a, b, r);
        law_triangle_inequality(a, q, c);
        law_triangle_inequality(a, q, r);
        law_triangle_inequality(p, q, c);
        law_triangle_inequality(p, q, r);
    }
}

/// A string is another with one character inserted.
pub open spec fn inserted(s: Seq<char>, t: Seq<char>) -> bool {
    exists|i: int, ch: char| 0 <= i <= s.len() && t == #[trigger] s.insert(i, ch)
}

/// A string is another with one character replaced.
pub open spec fn replaced(s: Seq<char>, t: Seq<char>) -> bool {
    exists|i: int, ch: char| 0 <= i < s.len() && t == #[trigger] s.update(i, ch)
}

/// One edit turns a string into another: an insertion, a removal or a
/// replacement of one character.
pub open spec fn one_edit(s: Seq<char>, t: Seq<char>) -> bool {
    inserted(s, t) || inserted(t, s) || replaced(s, t)
}

/// Each string of the list is one edit away from the one before it.
pub open spec fn edits(path: Seq<Seq<char>>) -> bool {
    forall|i: int| 0 <= i < path.len() - 1 ==> one_edit(#[trigger] path[i], path[i + 1])
}

/// The list starts and ends with the given strings.
pub open spec fn leads(path: Seq<Seq<char>>, a: Seq<char>, b: Seq<char>) -> bool {
    path.len() > 0 && path[0] == a && path.last() == b
}

proof fn lemma_insertion_is_near(s: Seq<char>, i: int, ch: char)
    requires
        0 <= i <= s.len(),
    ensures
        distance(s, s.insert(i, ch)) <= 1,
    decreases s.len(),
{
    let t = s.insert(i, ch);
    law_zero_distance_means_equal(s, s);
    if s.len() == 0 {
        assert(t.len() == 1);
    } else if i == s.len() {
        assert(t.drop_last() =~= s);
    } else {
        lemma_insertion_is_near(s.drop_last(), i, ch);
        assert(t.drop_last() =~= s.drop_last().insert(i, ch));
        assert(t.last() == s.last());
    }
}

proof fn lemma_replacement_is_near(s: Seq<char>, i: int, ch: char)
    requires
        0 <= i < s.len(),
    ensures
        distance(s, s.update(i, ch)) <= 1,
    decreases s.len(),
{
    let t = s.update(i, ch);
    if i == s.len() - 1 {
        law_zero_distance_means_equal(s.drop_last(), s.drop_last());
        assert(t.drop_last() =~= s.drop_last());
    } else {
        lemma_replacement_is_near(s.drop_last(), i, ch);
        assert(t.drop_last() =~= s.drop_last().update(i, ch));
        assert(t.last() == s.last());
    }
}

proof fn lemma_one_edit_is_near(s: Seq<char>, t: Seq<char>)
    requires
        one_edit(s, t),
    ensures
        distance(s, t) <= 1,
{
    if inserted(s, t) {
        let (i, ch) = choose|i: int, ch: char| 0 <= i <= s.len() && t == #[trigger] s.insert(i, ch);
        lemma_insertion_is_near(s, i, ch);
    } else if inserted(t, s) {
        let (i, ch) = choose|i: int, ch: char| 0 <= i <= t.len() && s == #[trigger] t.insert(i, ch);
        lemma_insertion_is_near(t, i, ch);
        law_distance_is_symmetric(s, t);
    } else {
        let (i, ch) = choose|i: int, ch: char| 0 <= i < s.len() && t == #[trigger] s.update(i, ch);
        lemma_replacement_is_near(s, i, ch);
    }
}

/// No list of edits that leads from one string to another is shorter than the
/// distance.
pub proof fn law_no_fewer_edits_do(path: Seq<Seq<char>>, a: Seq<char>, b: Seq<char>)
    requires
        edits(path),
        leads(path, a, b),
    ensures
        distance(a, b) <= path.len() - 1,
    decreases path.len(),
{
    if path.len() == 1 {
        law_zero_distance_means_equal(a, b);
    } else {
        let rest = path.drop_last();
        assert(edits(rest)) by {
            assert forall|i: int| 0 <= i < rest.len() - 1 implies one_edit(
                #[trigger] rest[i],
                rest[i + 1],
            ) by {
                assert(one_edit(path[i], path[i + 1]));
            }
        }
        law_no_fewer_edits_do(rest, a, rest.last());
        assert(one_edit(path[path.len() - 2], path[path.len() - 1]));
        lemma_one_edit_is_near(rest.last(), b);
        law_triangle_inequality(a, rest.last(), b);
    }
}

proof fn lemma_edit_before(s: Seq<char>, t: Seq<char>, x: char)
    requires
        one_edit(s, t),
    ensures
        one_edit(s.push(x), t.push(x)),
{
    if inserted(s, t) {
        let (i, ch) = choose|i: int, ch: char| 0 <= i <= s.len() && t == #[trigger] s.insert(i, ch);
        assert(t.push(x) =~= s.push(x).insert(i, ch));
    } else if inserted(t, s) {
        let (i, ch) = choose|i: int, ch: char| 0 <= i <= t.len() && s == #[trigger] t.insert(i, ch);
        assert(s.push(x) =~= t.push(x).insert(i, ch));
    } else {
        let (i, ch) = choose|i: int, ch: char| 0 <= i < s.len() && t == #[trigger] s.update(i, ch);
        assert(t.push(x) =~= s.push(x).update(i, ch));
    }
}

proof fn lemma_grows(s: Seq<char>)
    requires
        s.len() > 0,
    ensures
        one_edit(s.drop_last(), s),
        one_edit(s, s.drop_last()),
{
    assert(s =~= s.drop_last().insert(s.len() - 1, s.last()));
    assert(inserted(s.drop_last(), s));
}

/// The distance is reached: so many edits lead from one string to the other.
pub proof fn law_so_many_edits_do(a: Seq<char>, b: Seq<char>) -> (path: Seq<Seq<char>>)
    ensures
        edits(path),
        leads(path, a, b),
        path.len() == distance(a, b) + 1,
    decreases a.len() + b.len(),
{
    if a.len() == 0 && b.len() == 0 {
        assert(a =~= b);
        seq![a]
    } else if a.len() == 0 || (b.len() > 0 && distance(a, b) == distance(a, b.drop_last()) + 1) {
        let p = law_so_many_edits_do(a, b.drop_last());
        lemma_grows(b);
        lemma_longer(p, b);
        p.push(b)
    } else if b.len() == 0 || distance(a, b) == distance(a.drop_last(), b) + 1 {
        let p = law_so_many_edits_do(a.drop_last(), b);
        lemma_grows(a);
        let path = seq![a] + p;
        assert forall|i: int| 0 <= i < path.len() - 1 implies one_edit(
            #[trigger] path[i],
            path[i + 1],
        ) by {
            if i > 0 {
                assert(one_edit(p[i - 1], p[i]));
            }
        }
        path
    } else {
        let p = law_so_many_edits_do(a.drop_last(), b.drop_last());
        let x = a.last();
        let q = p.map_values(|s: Seq<char>| s.push(x));
        assert(edits(q)) by {
            assert forall|i: int| 0 <= i < q.len() - 1 implies one_edit(
                #[trigger] q[i],
                q[i + 1],
            ) by {
                assert(one_edit(p[i], p[i + 1]));
                lemma_edit_before(p[i], p[i + 1], x);
            }
        }
        assert(a =~= a.drop_last().push(x));
        assert(b =~= b.drop_last().push(b.last()));
        if x == b.last() {
            q
        } else {
            let last = b.drop_last().push(x);
            assert(b =~= last.update(b.len() - 1, b.last()));
            assert(replaced(last, b));
            lemma_longer(q, b);
            q.push(b)
        }
    }
}

proof fn lemma_longer(p: Seq<Seq<char>>, t: Seq<char>)
    requires
        p.len() > 0,
        edits(p),
        one_edit(p.last(), t),
    ensures
        edits(p.push(t)),
{
    let path = p.push(t);
    assert forall|i: int| 0 <= i < path.len() - 1 implies one_edit(
        #[trigger] path[i],
        path[i + 1],
    ) by {
        if i < p.len() - 1 {
            assert(one_edit(p[i], p[i + 1]));
        }
    }
}

} // verus!
