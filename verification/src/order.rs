//! Stable sorting by a total order.

use vstd::prelude::*;

verus! {

/// A key type with a total order.
pub trait Ranked: Sized {
    /// Whether `self` ranks at or before `other`.
    spec fn rank_le(self, other: Self) -> bool;

    /// Two keys are always comparable.
    proof fn rank_total(a: Self, b: Self)
        ensures
            a.rank_le(b) || b.rank_le(a),
    ;

    /// The order is transitive.
    proof fn rank_transitive(a: Self, b: Self, c: Self)
        requires
            a.rank_le(b),
            b.rank_le(c),
        ensures
            a.rank_le(c),
    ;

    /// Computes [`Ranked::rank_le`].
    fn ranks_at_or_before(&self, other: &Self) -> (r: bool)
        ensures
            r == self.rank_le(*other),
    ;
}

/// Position `a` comes before position `b` once `keys` are put in order: it
/// ranks strictly lower, or equally and stands earlier.
pub open spec fn comes_before<K: Ranked>(keys: Seq<K>, a: int, b: int) -> bool {
    keys[a].rank_le(keys[b]) && (keys[b].rank_le(keys[a]) ==> a < b)
}

/// Every listed position comes before the ones listed after it.
pub open spec fn in_order<K: Ranked>(order: Seq<usize>, keys: Seq<K>) -> bool {
    forall|i: int, j: int|
        0 <= i < j < order.len() ==> comes_before(keys, #[trigger] order[i] as int, #[trigger] order[j] as int)
}

/// The listed positions are exactly those of `lo..hi`, each once.
pub open spec fn lists_range(order: Seq<usize>, lo: int, hi: int) -> bool {
    &&& order.len() == hi - lo
    &&& order.no_duplicates()
    &&& forall|k: usize| #[trigger] order.contains(k) <==> lo <= k < hi
}

/// `order` lists the positions of `keys` in ascending order of key, equal
/// keys in their original order.
pub open spec fn is_sorted_order<K: Ranked>(order: Seq<usize>, keys: Seq<K>) -> bool {
    lists_range(order, 0, keys.len() as int) && in_order(order, keys)
}

proof fn comes_before_transitive<K: Ranked>(keys: Seq<K>, a: int, b: int, c: int)
    requires
        comes_before(keys, a, b),
        comes_before(keys, b, c),
    ensures
        comes_before(keys, a, c),
{
    K::rank_transitive(keys[a], keys[b], keys[c]);
    if keys[c].rank_le(keys[a]) {
        K::rank_transitive(keys[c], keys[a], keys[b]);
        K::rank_transitive(keys[b], keys[c], keys[a]);
    }
}

/// The listed positions as mathematical integers.
pub open spec fn ints(s: Seq<usize>) -> Seq<int> {
    Seq::new(s.len(), |i: int| s[i] as int)
}

/// Strict order made from `le` by letting the earlier position win a tie.
pub open spec fn tie_by_position(le: spec_fn(int, int) -> bool) -> spec_fn(int, int) -> bool {
    |p: int, q: int| le(p, q) && (le(q, p) ==> p < q)
}

/// `list` names exactly the positions that `keep` accepts, each once, every
/// one before those listed after it.
pub open spec fn is_listing(
    list: Seq<int>,
    keep: spec_fn(int) -> bool,
    before: spec_fn(int, int) -> bool,
) -> bool {
    &&& list.no_duplicates()
    &&& forall|p: int| #[trigger] list.contains(p) <==> keep(p)
    &&& forall|i: int, j: int| 0 <= i < j < list.len() ==> before(#[trigger] list[i], #[trigger] list[j])
}

/// There is only one listing of the same positions in the same order.
pub proof fn listing_is_unique(
    p: Seq<int>,
    q: Seq<int>,
    keep: spec_fn(int) -> bool,
    le: spec_fn(int, int) -> bool,
)
    requires
        is_listing(p, keep, tie_by_position(le)),
        is_listing(q, keep, tie_by_position(le)),
    ensures
        p == q,
    decreases p.len(),
{
    let before = tie_by_position(le);
    if p.len() == 0 {
        if q.len() > 0 {
            assert(q.contains(q[0]));
            assert(p.contains(q[0]));
        }
        assert(p =~= q);
    } else {
        assert(p.contains(p[0]));
        assert(q.contains(p[0]));
        assert(q.contains(q[0]));
        assert(p.contains(q[0]));
        let i = choose|i: int| 0 <= i < q.len() && q[i] == p[0];
        let j = choose|j: int| 0 <= j < p.len() && p[j] == q[0];
        if i > 0 && j > 0 {
            assert(before(q[0], q[i]));
            assert(before(p[0], p[j]));
        }
        assert(p[0] == q[0]);
        let first = p[0];
        let rest = |x: int| keep(x) && x != first;
        lemma_listing_tail(p, keep, before);
        lemma_listing_tail(q, keep, before);
        listing_is_unique(p.skip(1), q.skip(1), rest, le);
        assert(p =~= seq![first] + p.skip(1));
        assert(q =~= seq![first] + q.skip(1));
    }
}

proof fn lemma_listing_tail(list: Seq<int>, keep: spec_fn(int) -> bool, before: spec_fn(int, int) -> bool)
    requires
        list.len() > 0,
        is_listing(list, keep, before),
    ensures
        is_listing(list.skip(1), |x: int| keep(x) && x != list[0], before),
{
    let tail = list.skip(1);
    assert forall|x: int| #[trigger] tail.contains(x) <==> keep(x) && x != list[0] by {
        if tail.contains(x) {
            let k = choose|k: int| 0 <= k < tail.len() && tail[k] == x;
            assert(list[k + 1] == x);
            assert(list.contains(x));
        }
        if keep(x) && x != list[0] {
            assert(list.contains(x));
            let k = choose|k: int| 0 <= k < list.len() && list[k] == x;
            assert(tail[k - 1] == x);
        }
    }
}

/// Puts the positions `at` in ascending order of their keys, equal keys in
/// order of position. `le` is the order of the keys seen from the positions.
pub fn arrange<K: Ranked>(
    at: &Vec<usize>,
    keys: &Vec<K>,
    Ghost(le): Ghost<spec_fn(int, int) -> bool>,
) -> (out: Vec<usize>)
    requires
        at.len() == keys.len(),
        forall|a: int, b: int| 0 <= a < b < at.len() ==> at@[a] < at@[b],
        forall|a: int, b: int|
            0 <= a < at.len() && 0 <= b < at.len() ==> #[trigger] keys@[a].rank_le(keys@[b]) == le(
                at@[a] as int,
                at@[b] as int,
            ),
    ensures
        out.len() == at.len(),
        is_listing(ints(out@), |p: int| ints(at@).contains(p), tie_by_position(le)),
{
    let order: Vec<usize> = sorted_order(keys);
    let mut out: Vec<usize> = Vec::new();
    let mut i: usize = 0;
    while i < order.len()
        invariant
            i <= order.len(),
            at.len() == keys.len(),
            order.len() == at.len(),
            is_sorted_order(order@, keys@),
            out.len() == i,
            forall|k: int| 0 <= k < i ==> #[trigger] out@[k] == at@[order@[k] as int],
        decreases order.len() - i,
    {
        proof {
            assert(order@.contains(order@[i as int]));
        }
        out.push(at[order[i]]);
        i = i + 1;
    }
    proof {
        let list = ints(out@);
        let before = tie_by_position(le);
        assert forall|k: int| 0 <= k < order.len() implies 0 <= #[trigger] order@[k] < at.len() by {
            assert(order@.contains(order@[k]));
        }
        assert forall|x: int, y: int| 0 <= x < y < list.len() implies before(
            #[trigger] list[x],
            #[trigger] list[y],
        ) by {
            let a = order@[x] as int;
            let b = order@[y] as int;
            assert(comes_before(keys@, a, b));
            assert(out@[x] == at@[a]);
            assert(out@[y] == at@[b]);
            assert(keys@[a].rank_le(keys@[b]) == le(at@[a] as int, at@[b] as int));
            assert(keys@[b].rank_le(keys@[a]) == le(at@[b] as int, at@[a] as int));
        }
        assert forall|x: int, y: int| 0 <= x < y < list.len() implies list[x] != list[y] by {
            assert(before(list[x], list[y]));
        }
        assert forall|p: int| #[trigger] list.contains(p) <==> ints(at@).contains(p) by {
            if list.contains(p) {
                let k = choose|k: int| 0 <= k < list.len() && list[k] == p;
                assert(out@[k] == at@[order@[k] as int]);
                assert(ints(at@)[order@[k] as int] == p);
            }
            if ints(at@).contains(p) {
                let a = choose|a: int| 0 <= a < at.len() && ints(at@)[a] == p;
                assert(order@.contains(a as usize));
                let k = choose|k: int| 0 <= k < order.len() && order@[k] == a as usize;
                assert(out@[k] == at@[order@[k] as int]);
                assert(list[k] == p);
            }
        }
    }
    out
}

/// The positions of `keys` in ascending order of key, equal keys in their
/// original order.
pub fn sorted_order<K: Ranked>(keys: &Vec<K>) -> (order: Vec<usize>)
    ensures
        is_sorted_order(order@, keys@),
{
    sort_range(keys, 0, keys.len())
}

fn sort_range<K: Ranked>(keys: &Vec<K>, lo: usize, hi: usize) -> (order: Vec<usize>)
    requires
        lo <= hi <= keys.len(),
    ensures
        lists_range(order@, lo as int, hi as int),
        in_order(order@, keys@),
    decreases hi - lo,
{
    let mut out: Vec<usize> = Vec::new();
    if hi == lo {
        return out;
    }
    if hi - lo == 1 {
        out.push(lo);
        proof {
            assert(out@[0] == lo);
        }
        return out;
    }
    let mid: usize = lo + (hi - lo) / 2;
    let left = sort_range(keys, lo, mid);
    let right = sort_range(keys, mid, hi);
    merge(keys, &left, &right, Ghost(lo as int), Ghost(mid as int), Ghost(hi as int))
}

fn merge<K: Ranked>(
    keys: &Vec<K>,
    left: &Vec<usize>,
    right: &Vec<usize>,
    Ghost(lo): Ghost<int>,
    Ghost(mid): Ghost<int>,
    Ghost(hi): Ghost<int>,
) -> (out: Vec<usize>)
    requires
        0 <= lo <= mid <= hi <= keys.len(),
        lists_range(left@, lo, mid),
        lists_range(right@, mid, hi),
        in_order(left@, keys@),
        in_order(right@, keys@),
    ensures
        lists_range(out@, lo, hi),
        in_order(out@, keys@),
{
    let mut out: Vec<usize> = Vec::new();
    let mut i: usize = 0;
    let mut j: usize = 0;
    while i < left.len() || j < right.len()
        invariant
            0 <= lo <= mid <= hi <= keys.len(),
            lists_range(left@, lo, mid),
            lists_range(right@, mid, hi),
            in_order(left@, keys@),
            in_order(right@, keys@),
            i <= left.len(),
            j <= right.len(),
            out.len() == i + j,
            in_order(out@, keys@),
            forall|k: usize| #[trigger]
                out@.contains(k) <==> left@.take(i as int).contains(k) || right@.take(j as int).contains(k),
            forall|a: int, b: int|
                0 <= a < out.len() && i <= b < left.len() ==> comes_before(
                    keys@,
                    #[trigger] out@[a] as int,
                    #[trigger] left@[b] as int,
                ),
            forall|a: int, b: int|
                0 <= a < out.len() && j <= b < right.len() ==> comes_before(
                    keys@,
                    #[trigger] out@[a] as int,
                    #[trigger] right@[b] as int,
                ),
        decreases left.len() - i + right.len() - j,
    {
        proof {
            if i < left.len() {
                assert(left@.contains(left@[i as int]));
            }
            if j < right.len() {
                assert(right@.contains(right@[j as int]));
            }
        }
        let ghost before = out@;
        let from_left: bool = if i == left.len() {
            false
        } else if j == right.len() {
            true
        } else {
            keys[left[i]].ranks_at_or_before(&keys[right[j]])
        };
        if from_left {
            out.push(left[i]);
            proof {
                let x = left@[i as int];
                assert forall|b: int| j <= b < right.len() implies comes_before(
                    keys@,
                    x as int,
                    #[trigger] right@[b] as int,
                ) by {
                    if b > j {
                        assert(comes_before(keys@, right@[j as int] as int, right@[b] as int));
                        comes_before_transitive(keys@, x as int, right@[j as int] as int, right@[b] as int);
                    }
                }
                lemma_take_push(left@, i as int);
                lemma_push_contains(before, x);
                assert forall|k: usize| #[trigger] out@.contains(k) <==> left@.take(i + 1).contains(k)
                    || right@.take(j as int).contains(k) by {
                    assert(before.contains(k) <==> left@.take(i as int).contains(k) || right@.take(
                        j as int,
                    ).contains(k));
                    lemma_push_contains(left@.take(i as int), x);
                }
            }
            i = i + 1;
        } else {
            out.push(right[j]);
            proof {
                let x = right@[j as int];
                assert forall|b: int| i <= b < left.len() implies comes_before(
                    keys@,
                    x as int,
                    #[trigger] left@[b] as int,
                ) by {
                    K::rank_total(keys@[left@[i as int] as int], keys@[x as int]);
                    if b > i {
                        assert(comes_before(keys@, left@[i as int] as int, left@[b] as int));
                        comes_before_transitive(keys@, x as int, left@[i as int] as int, left@[b] as int);
                    }
                }
                lemma_take_push(right@, j as int);
                lemma_push_contains(before, x);
                assert forall|k: usize| #[trigger] out@.contains(k) <==> left@.take(i as int).contains(k)
                    || right@.take(j + 1).contains(k) by {
                    assert(before.contains(k) <==> left@.take(i as int).contains(k) || right@.take(
                        j as int,
                    ).contains(k));
                    lemma_push_contains(right@.take(j as int), x);
                }
            }
            j = j + 1;
        }
    }
    proof {
        assert(left@.take(i as int) =~= left@);
        assert(right@.take(j as int) =~= right@);
        assert forall|a: int, b: int| 0 <= a < b < out@.len() implies out@[a] != out@[b] by {
            assert(comes_before(keys@, out@[a] as int, out@[b] as int));
        }
        assert forall|a: int, b: int| 0 <= a < out@.len() && 0 <= b < out@.len() && a != b implies out@[a]
            != out@[b] by {
            if a > b {
                assert(out@[b] != out@[a]);
            }
        }
        assert forall|k: usize| #[trigger] out@.contains(k) <==> lo <= k < hi by {
            assert(left@.contains(k) <==> lo <= k < mid);
            assert(right@.contains(k) <==> mid <= k < hi);
        }
    }
    out
}

proof fn lemma_take_push<T>(s: Seq<T>, i: int)
    requires
        0 <= i < s.len(),
    ensures
        s.take(i + 1) == s.take(i).push(s[i]),
{
    assert(s.take(i + 1) =~= s.take(i).push(s[i]));
}

/// What a sequence holds after one element was appended.
pub proof fn lemma_push_contains<T>(s: Seq<T>, x: T)
    ensures
        forall|k: T| #[trigger] s.push(x).contains(k) <==> s.contains(k) || k == x,
{
    assert forall|k: T| #[trigger] s.push(x).contains(k) <==> s.contains(k) || k == x by {
        if s.contains(k) {
            let i = choose|i: int| 0 <= i < s.len() && s[i] == k;
            assert(s.push(x)[i] == k);
        }
        if k == x {
            assert(s.push(x)[s.len() as int] == k);
        }
        if s.push(x).contains(k) {
            let i = choose|i: int| 0 <= i < s.push(x).len() && s.push(x)[i] == k;
            if i < s.len() {
                assert(s[i] == k);
            }
        }
    }
}

/// What a list of positions names after one more was appended.
pub proof fn lemma_ints_push(s: Seq<usize>, x: usize)
    ensures
        forall|r: int| #[trigger] ints(s.push(x)).contains(r) <==> ints(s).contains(r) || r == x,
{
    let t = s.push(x);
    assert forall|r: int| #[trigger] ints(t).contains(r) <==> ints(s).contains(r) || r == x by {
        if ints(s).contains(r) {
            let k = choose|k: int| 0 <= k < s.len() && ints(s)[k] == r;
            assert(ints(t)[k] == r);
        }
        if r == x {
            assert(ints(t)[s.len() as int] == r);
        }
        if ints(t).contains(r) {
            let k = choose|k: int| 0 <= k < t.len() && ints(t)[k] == r;
            if k < s.len() {
                assert(ints(s)[k] == r);
            }
        }
    }
}

} // verus!
