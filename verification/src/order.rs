//! Stable sorting by a text key.
//!
//! Sorting is stated as the order in which the items are to be visited: a list
//! of their positions, smallest key first, and among equal keys the one that
//! came first.

use vstd::prelude::*;

use crate::text;
use crate::text::{is_before, to_chars};

verus! {

/// `n` put into a ranking: behind every entry whose key does not come after its
/// own.
pub open spec fn ranked_with(ranking: Seq<int>, keys: Seq<Seq<char>>, n: int) -> Seq<int>
    decreases ranking.len(),
{
    if ranking.len() > 0 && text::precedes(keys[n], keys[ranking.last()]) {
        ranked_with(ranking.drop_last(), keys, n).push(ranking.last())
    } else {
        ranking.push(n)
    }
}

/// The positions of the first `n` keys, in the order of their keys.
pub open spec fn ranking_of(keys: Seq<Seq<char>>, n: nat) -> Seq<int>
    decreases n,
{
    if n == 0 {
        Seq::empty()
    } else {
        ranked_with(ranking_of(keys, (n - 1) as nat), keys, n - 1)
    }
}

/// The positions of all keys, in the order of their keys.
pub open spec fn ranking(keys: Seq<Seq<char>>) -> Seq<int> {
    ranking_of(keys, keys.len())
}

/// The items in the order of their keys.
pub open spec fn arranged<T>(items: Seq<T>, keys: Seq<Seq<char>>) -> Seq<T> {
    Seq::new(keys.len(), |i: int| items[ranking(keys)[i]])
}

/// Entry `a` may stand before entry `b`: its key is smaller, or the keys are
/// equal and it came first.
pub open spec fn in_order(keys: Seq<Seq<char>>, a: int, b: int) -> bool {
    !text::precedes(keys[b], keys[a]) && (keys[a] == keys[b] ==> a < b)
}

// ------------------------------------------------------------------ laws

/// Dictionary order is irreflexive, asymmetric and total.
pub proof fn lemma_precedes(a: Seq<char>, b: Seq<char>)
    ensures
        !text::precedes(a, a),
        !(text::precedes(a, b) && text::precedes(b, a)),
        a == b || text::precedes(a, b) || text::precedes(b, a),
    decreases a.len(),
{
    if a.len() > 0 {
        lemma_precedes(a.drop_first(), a.drop_first());
    }
    if a.len() > 0 && b.len() > 0 {
        lemma_precedes(a.drop_first(), b.drop_first());
        if a[0] == b[0] && a.drop_first() == b.drop_first() {
            assert(a =~= seq![a[0]] + a.drop_first());
            assert(b =~= seq![b[0]] + b.drop_first());
        }
    } else if a.len() == 0 && b.len() == 0 {
        assert(a =~= b);
    }
}

/// Dictionary order is transitive.
pub proof fn lemma_precedes_trans(a: Seq<char>, b: Seq<char>, c: Seq<char>)
    requires
        text::precedes(a, b),
        text::precedes(b, c),
    ensures
        text::precedes(a, c),
    decreases a.len(),
{
    if a.len() > 0 && b.len() > 0 && c.len() > 0 && a[0] == b[0] && b[0] == c[0] {
        lemma_precedes_trans(a.drop_first(), b.drop_first(), c.drop_first());
    }
}

spec fn is_ranking(r: Seq<int>, keys: Seq<Seq<char>>, n: int) -> bool {
    &&& r.len() == n
    &&& forall|i: int| 0 <= i < n ==> 0 <= #[trigger] r[i] < n
    &&& forall|i: int, j: int|
        0 <= i < j < n ==> #[trigger] r[i] != #[trigger] r[j] && in_order(keys, r[i], r[j])
    &&& forall|k: int| 0 <= k < n ==> r.contains(k)
}

proof fn lemma_ranked_with(r: Seq<int>, keys: Seq<Seq<char>>, n: int)
    requires
        forall|i: int| 0 <= i < r.len() ==> 0 <= #[trigger] r[i] < n,
        forall|i: int, j: int|
            0 <= i < j < r.len() ==> #[trigger] r[i] != #[trigger] r[j] && in_order(
                keys,
                r[i],
                r[j],
            ),
    ensures
        ranked_with(r, keys, n).len() == r.len() + 1,
        ranked_with(r, keys, n).contains(n),
        forall|k: int| r.contains(k) ==> ranked_with(r, keys, n).contains(k),
        forall|k: int| #[trigger] ranked_with(r, keys, n).contains(k) ==> k == n || r.contains(k),
        forall|i: int, j: int|
            0 <= i < j < r.len() + 1 ==> #[trigger] ranked_with(r, keys, n)[i]
                != #[trigger] ranked_with(r, keys, n)[j] && in_order(
                keys,
                ranked_with(r, keys, n)[i],
                ranked_with(r, keys, n)[j],
            ),
    decreases r.len(),
{
    let out = ranked_with(r, keys, n);
    if r.len() > 0 && text::precedes(keys[n], keys[r.last()]) {
        let init = r.drop_last();
        lemma_ranked_with(init, keys, n);
        let before = ranked_with(init, keys, n);
        assert(out =~= before.push(r.last()));
        let at = before.index_of(n);
        assert(before.contains(n));
        assert(before[at] == n);
        assert(out[at] == n);
        assert forall|k: int| r.contains(k) implies out.contains(k) by {
            let i = r.index_of(k);
            assert(r[i] == k);
            if i == r.len() - 1 {
                assert(out[out.len() - 1] == k);
            } else {
                assert(init[i] == k);
                assert(init.contains(k));
                let j = before.index_of(k);
                assert(before[j] == k);
                assert(out[j] == k);
            }
        }
        assert forall|k: int| #[trigger] out.contains(k) implies k == n || r.contains(k) by {
            let i = out.index_of(k);
            if i < before.len() {
                assert(before[i] == k);
                assert(before.contains(k));
                if k != n {
                    let j = init.index_of(k);
                    assert(init[j] == k);
                    assert(r[j] == k);
                }
            } else {
                assert(r[r.len() - 1] == k);
            }
        }
        assert forall|i: int, j: int| 0 <= i < j < out.len() implies #[trigger] out[i]
            != #[trigger] out[j] && in_order(keys, out[i], out[j]) by {
            if j < before.len() {
                assert(out[i] == before[i] && out[j] == before[j]);
            } else {
                assert(out[j] == r.last());
                let k = before[i];
                assert(out[i] == k);
                assert(before.contains(k));
                if k == n {
                    lemma_precedes(keys[n], keys[r.last()]);
                    assert(r.last() == r[r.len() - 1]);
                } else {
                    let m = init.index_of(k);
                    assert(init[m] == k && r[m] == k);
                    assert(r.last() == r[r.len() - 1]);
                }
            }
        }
    } else {
        assert(out =~= r.push(n));
        assert(out[r.len() as int] == n);
        assert forall|k: int| r.contains(k) implies out.contains(k) by {
            let i = r.index_of(k);
            assert(out[i] == k);
        }
        assert forall|k: int| #[trigger] out.contains(k) implies k == n || r.contains(k) by {
            let i = out.index_of(k);
            if i < r.len() {
                assert(r[i] == k);
            }
        }
        assert forall|i: int, j: int| 0 <= i < j < out.len() implies #[trigger] out[i]
            != #[trigger] out[j] && in_order(keys, out[i], out[j]) by {
            if j < r.len() {
                assert(out[i] == r[i] && out[j] == r[j]);
            } else {
                assert(out[i] == r[i] && out[j] == n);
                if text::precedes(keys[n], keys[r[i]]) {
                    if i < r.len() - 1 {
                        assert(in_order(keys, r[i], r[r.len() - 1]));
                        lemma_precedes(keys[r[i]], keys[r.last()]);
                        if keys[r[i]] != keys[r.last()] {
                            lemma_precedes_trans(keys[n], keys[r[i]], keys[r.last()]);
                        }
                    }
                    assert(false);
                }
            }
        }
    }
}

proof fn lemma_ranking_of(keys: Seq<Seq<char>>, n: nat)
    requires
        n <= keys.len(),
    ensures
        is_ranking(ranking_of(keys, n), keys, n as int),
    decreases n,
{
    if n > 0 {
        let before = ranking_of(keys, (n - 1) as nat);
        lemma_ranking_of(keys, (n - 1) as nat);
        lemma_ranked_with(before, keys, n - 1);
        let out = ranking_of(keys, n);
        assert forall|i: int| 0 <= i < n implies 0 <= #[trigger] out[i] < n by {
            assert(out.contains(out[i]));
            if out[i] != n - 1 {
                let j = before.index_of(out[i]);
                assert(before[j] == out[i]);
            }
        }
        assert forall|k: int| 0 <= k < n implies out.contains(k) by {
            if k < n - 1 {
                assert(before.contains(k));
            }
        }
    }
}

/// A ranking visits every position exactly once, in the order of the keys, and
/// keeps the order of positions whose keys are equal.
pub proof fn lemma_ranking(keys: Seq<Seq<char>>)
    ensures
        ranking(keys).len() == keys.len(),
        forall|i: int| 0 <= i < keys.len() ==> 0 <= #[trigger] ranking(keys)[i] < keys.len(),
        forall|i: int, j: int|
            0 <= i < j < keys.len() ==> #[trigger] ranking(keys)[i] != #[trigger] ranking(keys)[j]
                && in_order(keys, ranking(keys)[i], ranking(keys)[j]),
        forall|k: int| 0 <= k < keys.len() ==> ranking(keys).contains(k),
{
    lemma_ranking_of(keys, keys.len());
}

// ------------------------------------------------------------ executable

/// The positions of `keys`, in the order of the keys.
pub fn rank(keys: &Vec<String>) -> (r: Vec<usize>)
    ensures
        r@.len() == keys@.len(),
        forall|i: int|
            0 <= i < r@.len() ==> (#[trigger] r@[i]) as int == ranking(text::views(keys@))[i],
        forall|i: int| 0 <= i < r@.len() ==> (#[trigger] r@[i]) < keys@.len(),
{
    let mut list: Vec<Vec<char>> = Vec::new();
    let mut k: usize = 0;
    while k < keys.len()
        invariant
            k <= keys@.len(),
            list@.len() == k,
            forall|i: int| 0 <= i < k ==> (#[trigger] list@[i])@ == keys@[i]@,
        decreases keys.len() - k,
    {
        list.push(to_chars(keys[k].as_str()));
        k += 1;
    }
    let ghost all = text::views(keys@);
    let mut out: Vec<usize> = Vec::new();
    let mut n: usize = 0;
    proof {
        lemma_ranking(all);
    }
    assert(out@.map_values(|x: usize| x as int) =~= ranking_of(all, 0));
    while n < list.len()
        invariant
            n <= list@.len(),
            all == text::views(keys@),
            list@.len() == keys@.len(),
            forall|i: int| 0 <= i < keys@.len() ==> (#[trigger] list@[i])@ == keys@[i]@,
            out@.map_values(|x: usize| x as int) == ranking_of(all, n as nat),
            out@.len() == n,
        decreases list.len() - n,
    {
        let ghost before = out@.map_values(|x: usize| x as int);
        proof {
            lemma_ranking_of(all, n as nat);
        }
        let mut p: usize = n;
        assert(before.take(p as int) =~= before);
        assert(ranked_with(before.take(p as int), all, n as int) + before.skip(p as int)
            =~= ranked_with(before, all, n as int));
        while p > 0 && is_before(&list[n], &list[out[p - 1]])
            invariant
                p <= n < list@.len(),
                out@.len() == n,
                list@.len() == keys@.len(),
                all == text::views(keys@),
                forall|i: int| 0 <= i < keys@.len() ==> (#[trigger] list@[i])@ == keys@[i]@,
                before == out@.map_values(|x: usize| x as int),
                forall|i: int| 0 <= i < n ==> 0 <= #[trigger] before[i] < n,
                ranked_with(before.take(p as int), all, n as int) + before.skip(p as int)
                    == ranked_with(before, all, n as int),
            decreases p,
        {
            assert(before[p - 1] == out@[p - 1]);
            assert(before.take(p as int).drop_last() =~= before.take(p - 1));
            assert(ranked_with(before.take(p - 1), all, n as int).push(before[p - 1]) + before.skip(
                p as int,
            ) =~= ranked_with(before.take(p - 1), all, n as int) + before.skip(p - 1));
            p -= 1;
        }
        proof {
            if p > 0 {
                assert(before[p - 1] == out@[p - 1]);
            }
        }
        out.insert(p, n);
        assert(out@.map_values(|x: usize| x as int) =~= before.take(p as int).push(n as int)
            + before.skip(p as int));
        n += 1;
    }
    proof {
        assert forall|i: int| 0 <= i < out@.len() implies (#[trigger] out@[i]) as int == ranking(
            all,
        )[i] by {
            assert(out@.map_values(|x: usize| x as int)[i] == out@[i]);
        }
    }
    out
}

} // verus!
