//! The order of point pairs, and pair lists without repetition.

use vstd::prelude::*;
use std::cmp::Ordering;
use crate::util::Point;

verus! {

/// A pair of points: where a connection starts and where it ends.
pub type Pair = (Point, Point);

/// `a` stands before `b`: by `x`, then by `y`, then by `z`.
pub open spec fn point_lt(a: Point, b: Point) -> bool {
    a.x < b.x || (a.x == b.x && (a.y < b.y || (a.y == b.y && a.z < b.z)))
}

/// `a` stands before `b`: by the start point, then by the end point.
pub open spec fn pair_lt(a: Pair, b: Pair) -> bool {
    point_lt(a.0, b.0) || (a.0 == b.0 && point_lt(a.1, b.1))
}

/// Every pair stands before all the pairs behind it.
pub open spec fn strictly_sorted(s: Seq<Pair>) -> bool {
    forall|i: int, j: int| 0 <= i < j < s.len() ==> pair_lt(s[i], s[j])
}

/// The two lists hold the same pairs, whatever the order and the number of
/// times each pair occurs.
pub open spec fn same_items(s: Seq<Pair>, t: Seq<Pair>) -> bool {
    forall|p: Pair| s.contains(p) <==> t.contains(p)
}

/// The pairs of `s` in rising order, each of them once.
pub open spec fn sorted_set(s: Seq<Pair>) -> Seq<Pair> {
    choose|t: Seq<Pair>| strictly_sorted(t) && same_items(t, s)
}

/// Orders two pairs of points: by the coordinates of the start points and
/// then by those of the end points.
pub fn compare_two_vec_pairs(a: &Pair, b: &Pair) -> (order: Ordering)
    ensures
        order is Less <==> pair_lt(*a, *b),
        order is Equal <==> *a == *b,
        order is Greater <==> pair_lt(*b, *a),
{
    let (a_start, a_end) = a;
    let (b_start, b_end) = b;

    if a_start.x < b_start.x {
        return Ordering::Less;
    } else if a_start.x > b_start.x {
        return Ordering::Greater;
    }
    if a_start.y < b_start.y {
        return Ordering::Less;
    } else if a_start.y > b_start.y {
        return Ordering::Greater;
    }
    if a_start.z < b_start.z {
        return Ordering::Less;
    } else if a_start.z > b_start.z {
        return Ordering::Greater;
    }
    if a_end.x < b_end.x {
        return Ordering::Less;
    } else if a_end.x > b_end.x {
        return Ordering::Greater;
    }
    if a_end.y < b_end.y {
        return Ordering::Less;
    } else if a_end.y > b_end.y {
        return Ordering::Greater;
    }
    if a_end.z < b_end.z {
        return Ordering::Less;
    } else if a_end.z > b_end.z {
        return Ordering::Greater;
    }
    Ordering::Equal
}

/// `a` stands before `b`.
pub fn pair_before(a: &Pair, b: &Pair) -> (before: bool)
    ensures
        before == pair_lt(*a, *b),
{
    match compare_two_vec_pairs(a, b) {
        Ordering::Less => true,
        _ => false,
    }
}

/// The two pairs are the same.
pub fn pair_same(a: &Pair, b: &Pair) -> (same: bool)
    ensures
        same == (*a == *b),
{
    match compare_two_vec_pairs(a, b) {
        Ordering::Equal => true,
        _ => false,
    }
}

/// Two lists in strictly rising order that hold the same pairs are the same
/// list.
pub proof fn lemma_sorted_unique(a: Seq<Pair>, b: Seq<Pair>)
    requires
        strictly_sorted(a),
        strictly_sorted(b),
        same_items(a, b),
    ensures
        a == b,
    decreases a.len(),
{
    if a.len() == 0 {
        if b.len() > 0 {
            assert(b.contains(b[0]));
            assert(a.contains(b[0]));
        }
        assert(a =~= b);
    } else {
        let top = a.last();
        assert(a.contains(top));
        assert(b.contains(top));
        let k = choose|k: int| 0 <= k < b.len() && b[k] == top;
        if k < b.len() - 1 {
            let higher = b.last();
            assert(pair_lt(top, higher));
            assert(b.contains(higher));
            assert(a.contains(higher));
            let m = choose|m: int| 0 <= m < a.len() && a[m] == higher;
            if m < a.len() - 1 {
                assert(pair_lt(a[m], a[a.len() - 1]));
            }
        }
        let a0 = a.drop_last();
        let b0 = b.drop_last();
        assert forall|p: Pair| a0.contains(p) <==> b0.contains(p) by {
            if a0.contains(p) {
                let i = choose|i: int| 0 <= i < a0.len() && a0[i] == p;
                assert(a[i] == p);
                assert(pair_lt(a[i], a[a.len() - 1]));
                assert(a.contains(p));
                assert(b.contains(p));
                let j = choose|j: int| 0 <= j < b.len() && b[j] == p;
                assert(b0[j] == p);
            }
            if b0.contains(p) {
                let i = choose|i: int| 0 <= i < b0.len() && b0[i] == p;
                assert(b[i] == p);
                assert(pair_lt(b[i], b[b.len() - 1]));
                assert(b.contains(p));
                assert(a.contains(p));
                let j = choose|j: int| 0 <= j < a.len() && a[j] == p;
                assert(a0[j] == p);
            }
        }
        assert(strictly_sorted(a0)) by {
            assert forall|i: int, j: int| 0 <= i < j < a0.len() implies pair_lt(a0[i], a0[j]) by {
                assert(pair_lt(a[i], a[j]));
            }
        }
        assert(strictly_sorted(b0)) by {
            assert forall|i: int, j: int| 0 <= i < j < b0.len() implies pair_lt(b0[i], b0[j]) by {
                assert(pair_lt(b[i], b[j]));
            }
        }
        lemma_sorted_unique(a0, b0);
        assert(a =~= a0.push(top));
        assert(b =~= b0.push(top));
    }
}

/// A list in strictly rising order that holds `e` and the pairs of `t`.
proof fn with_pair(t: Seq<Pair>, e: Pair) -> (r: Seq<Pair>)
    requires
        strictly_sorted(t),
    ensures
        strictly_sorted(r),
        forall|p: Pair| r.contains(p) <==> (t.contains(p) || p == e),
    decreases t.len(),
{
    if t.len() == 0 {
        let r = seq![e];
        assert(r[0] == e);
        r
    } else if t.last() == e {
        assert(t[t.len() - 1] == e);
        t
    } else if pair_lt(t.last(), e) {
        let r = t.push(e);
        assert forall|i: int, j: int| 0 <= i < j < r.len() implies pair_lt(r[i], r[j]) by {
            if j == t.len() && i < t.len() - 1 {
                assert(pair_lt(t[i], t[t.len() - 1]));
            }
        }
        assert forall|p: Pair| r.contains(p) <==> (t.contains(p) || p == e) by {
            if r.contains(p) {
                let k = choose|k: int| 0 <= k < r.len() && r[k] == p;
                if k < t.len() {
                    assert(t[k] == p);
                }
            }
            if t.contains(p) {
                let k = choose|k: int| 0 <= k < t.len() && t[k] == p;
                assert(r[k] == p);
            }
            if p == e {
                assert(r[t.len() as int] == p);
            }
        }
        r
    } else {
        let head = t.drop_last();
        let last = t.last();
        assert forall|i: int, j: int| 0 <= i < j < head.len() implies pair_lt(head[i], head[j]) by {
            assert(pair_lt(t[i], t[j]));
        }
        let low = with_pair(head, e);
        let r = low.push(last);
        assert forall|i: int, j: int| 0 <= i < j < r.len() implies pair_lt(r[i], r[j]) by {
            if j == low.len() {
                assert(low.contains(low[i]));
                if head.contains(low[i]) {
                    let k = choose|k: int| 0 <= k < head.len() && head[k] == low[i];
                    assert(pair_lt(t[k], t[t.len() - 1]));
                }
            } else {
                assert(pair_lt(low[i], low[j]));
            }
        }
        assert forall|p: Pair| r.contains(p) <==> (t.contains(p) || p == e) by {
            if r.contains(p) {
                let k = choose|k: int| 0 <= k < r.len() && r[k] == p;
                if k < low.len() {
                    assert(low.contains(low[k]));
                    if head.contains(p) {
                        let m = choose|m: int| 0 <= m < head.len() && head[m] == p;
                        assert(t[m] == p);
                    }
                } else {
                    assert(t[t.len() - 1] == p);
                }
            }
            if t.contains(p) {
                let k = choose|k: int| 0 <= k < t.len() && t[k] == p;
                if k < head.len() {
                    assert(head[k] == p);
                    assert(head.contains(p));
                    assert(low.contains(p));
                    let m = choose|m: int| 0 <= m < low.len() && low[m] == p;
                    assert(r[m] == p);
                } else {
                    assert(r[low.len() as int] == p);
                }
            }
            if p == e {
                assert(low.contains(p));
                let m = choose|m: int| 0 <= m < low.len() && low[m] == p;
                assert(r[m] == p);
            }
        }
        r
    }
}

/// A list in strictly rising order that holds the pairs of `s`.
proof fn sorted_of(s: Seq<Pair>) -> (t: Seq<Pair>)
    ensures
        strictly_sorted(t),
        same_items(t, s),
    decreases s.len(),
{
    if s.len() == 0 {
        let t = Seq::<Pair>::empty();
        assert forall|p: Pair| t.contains(p) <==> s.contains(p) by {}
        t
    } else {
        let head = s.drop_last();
        let low = sorted_of(head);
        let t = with_pair(low, s.last());
        assert forall|p: Pair| t.contains(p) <==> s.contains(p) by {
            if s.contains(p) {
                let k = choose|k: int| 0 <= k < s.len() && s[k] == p;
                if k < head.len() {
                    assert(head[k] == p);
                    assert(head.contains(p));
                }
            }
            if head.contains(p) {
                let k = choose|k: int| 0 <= k < head.len() && head[k] == p;
                assert(s[k] == p);
            }
            if p == s.last() {
                assert(s[s.len() - 1] == p);
            }
        }
        t
    }
}

/// Every list has its pairs in rising order, each of them once, and
/// `sorted_set` is that list.
pub proof fn lemma_sorted_set(s: Seq<Pair>)
    ensures
        strictly_sorted(sorted_set(s)),
        same_items(sorted_set(s), s),
{
    let t = sorted_of(s);
    assert(strictly_sorted(t) && same_items(t, s));
}

/// Puts `e` at its place into a list in strictly rising order, unless the
/// list holds it already.
pub fn insert_pair(out: &mut Vec<Pair>, e: Pair)
    requires
        strictly_sorted(old(out)@),
    ensures
        strictly_sorted(final(out)@),
        forall|p: Pair| final(out)@.contains(p) <==> (old(out)@.contains(p) || p == e),
{
    let ghost before = out@;
    let mut i: usize = out.len();
    while i > 0 && pair_before(&e, &out[i - 1])
        invariant
            i <= out.len(),
            out@ == before,
            forall|j: int| i <= j < out.len() ==> pair_lt(e, #[trigger] out@[j]),
        decreases i,
    {
        i -= 1;
    }
    if i > 0 && pair_same(&e, &out[i - 1]) {
        proof {
            assert(before.contains(e));
        }
    } else {
        out.insert(i, e);
        proof {
            let after = out@;
            assert forall|a: int, b: int| 0 <= a < b < after.len() implies pair_lt(
                after[a],
                after[b],
            ) by {
                if b < i {
                    assert(pair_lt(before[a], before[b]));
                } else if b == i {
                    assert(after[a] == before[a]);
                    if a < i - 1 {
                        assert(pair_lt(before[a], before[i - 1]));
                    }
                    assert(!pair_lt(e, before[i - 1]));
                    assert(before[i - 1] != e);
                } else if a == i {
                    assert(after[b] == before[b - 1]);
                } else if a > i {
                    assert(pair_lt(before[a - 1], before[b - 1]));
                } else {
                    assert(pair_lt(before[a], before[b - 1]));
                }
            }
            assert forall|p: Pair| after.contains(p) <==> (before.contains(p) || p == e) by {
                if after.contains(p) {
                    let k = choose|k: int| 0 <= k < after.len() && after[k] == p;
                    if k < i {
                        assert(before[k] == p);
                    } else if k > i {
                        assert(before[k - 1] == p);
                    }
                }
                if before.contains(p) {
                    let k = choose|k: int| 0 <= k < before.len() && before[k] == p;
                    if k < i {
                        assert(after[k] == p);
                    } else {
                        assert(after[k + 1] == p);
                    }
                }
                if p == e {
                    assert(after[i as int] == p);
                }
            }
        }
    }
}

/// The pairs of `pairs` in rising order, each of them once.
pub fn sort_dedup(pairs: Vec<Pair>) -> (sorted: Vec<Pair>)
    ensures
        sorted@ == sorted_set(pairs@),
        strictly_sorted(sorted@),
        same_items(sorted@, pairs@),
{
    let mut sorted: Vec<Pair> = Vec::new();
    let mut i: usize = 0;
    while i < pairs.len()
        invariant
            i <= pairs.len(),
            strictly_sorted(sorted@),
            forall|p: Pair| sorted@.contains(p) <==> pairs@.take(i as int).contains(p),
        decreases pairs.len() - i,
    {
        let ghost seen = pairs@.take(i as int);
        let ghost next = pairs@.take(i + 1);
        insert_pair(&mut sorted, pairs[i]);
        proof {
            assert(next =~= seen.push(pairs@[i as int]));
            assert forall|p: Pair| sorted@.contains(p) <==> next.contains(p) by {
                if next.contains(p) {
                    let k = choose|k: int| 0 <= k < next.len() && next[k] == p;
                    if k < i {
                        assert(seen[k] == p);
                    }
                }
                if seen.contains(p) {
                    let k = choose|k: int| 0 <= k < seen.len() && seen[k] == p;
                    assert(next[k] == p);
                }
                assert(next[i as int] == pairs@[i as int]);
            }
        }
        i += 1;
    }
    proof {
        assert(pairs@.take(i as int) =~= pairs@);
        let t = sorted_set(pairs@);
        assert(strictly_sorted(sorted@) && same_items(sorted@, pairs@));
        assert(strictly_sorted(t) && same_items(t, pairs@));
        lemma_sorted_unique(sorted@, t);
    }
    sorted
}

} // verus!
