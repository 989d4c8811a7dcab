//! Stable ordering by textual keys: the order in which lists of apps,
//! pinned sites and search providers are presented.
use vstd::prelude::*;

use crate::text::{lemma_lex_antisym, lemma_lex_total, lemma_lex_trans, lex_le, lex_le_chars, views};

verus! {

/// `p` lists each of `0..n` exactly once.
pub open spec fn is_permutation(p: Seq<int>, n: nat) -> bool {
    &&& p.len() == n
    &&& forall|i: int| 0 <= i < p.len() ==> 0 <= #[trigger] p[i] < n
    &&& forall|i: int, j: int| 0 <= i < j < p.len() ==> p[i] != p[j]
}

/// `p` is the stable ascending order of `keys`: a permutation under which
/// keys never decrease and equal keys keep their order of input.
pub open spec fn stable_order(keys: Seq<Seq<char>>, p: Seq<int>) -> bool {
    &&& is_permutation(p, keys.len())
    &&& forall|i: int, j: int|
        0 <= i < j < p.len() ==> lex_le(#[trigger] keys[p[i]], #[trigger] keys[p[j]])
    &&& forall|i: int, j: int|
        0 <= i < j < p.len() && keys[p[i]] == keys[p[j]] ==> p[i] < p[j]
}

/// `out` is `items` rearranged by `p`.
pub open spec fn arranged<T>(out: Seq<T>, items: Seq<T>, p: Seq<int>) -> bool {
    out.len() == p.len() && forall|i: int| 0 <= i < out.len() ==> out[i] == items[p[i]]
}

/// `items` rearranged in the stable ascending order of `keys`.
pub open spec fn sorted_by<T>(items: Seq<T>, keys: Seq<Seq<char>>) -> Seq<T> {
    let p = choose|p: Seq<int>| stable_order(keys, p);
    Seq::new(p.len(), |i: int| items[p[i]])
}

/// `p` holds no index twice and lists indices by ascending key, equal keys
/// by ascending index.
spec fn stably_sorted(keys: Seq<Seq<char>>, p: Seq<int>) -> bool {
    &&& forall|i: int, j: int| 0 <= i < j < p.len() ==> p[i] != p[j]
    &&& forall|i: int, j: int|
        0 <= i < j < p.len() ==> lex_le(#[trigger] keys[p[i]], #[trigger] keys[p[j]])
    &&& forall|i: int, j: int|
        0 <= i < j < p.len() && keys[p[i]] == keys[p[j]] ==> p[i] < p[j]
}

proof fn lemma_stably_sorted_unique(keys: Seq<Seq<char>>, p: Seq<int>, q: Seq<int>)
    requires
        stably_sorted(keys, p),
        stably_sorted(keys, q),
        forall|x: int| p.contains(x) <==> q.contains(x),
    ensures
        p == q,
    decreases p.len(),
{
    if p.len() == 0 {
        if q.len() > 0 {
            assert(q.contains(q[0]));
        }
        assert(p =~= q);
    } else {
        let a = p[0];
        assert(p.contains(a));
        let k = choose|k: int| 0 <= k < q.len() && q[k] == a;
        let b = q[0];
        assert(q.contains(b));
        let j = choose|j: int| 0 <= j < p.len() && p[j] == b;
        if a != b {
            assert(j > 0 && k > 0);
            assert(lex_le(keys[p[0]], keys[p[j]]));
            assert(lex_le(keys[q[0]], keys[q[k]]));
            lemma_lex_antisym(keys[a], keys[b]);
            assert(false);
        }
        let p1 = p.drop_first();
        let q1 = q.drop_first();
        assert forall|i: int, j2: int| 0 <= i < j2 < p1.len() implies p1[i] != p1[j2] && lex_le(
            keys[p1[i]],
            keys[p1[j2]],
        ) && (keys[p1[i]] == keys[p1[j2]] ==> p1[i] < p1[j2]) by {
            assert(p1[i] == p[i + 1] && p1[j2] == p[j2 + 1]);
        }
        assert forall|i: int, j2: int| 0 <= i < j2 < q1.len() implies q1[i] != q1[j2] && lex_le(
            keys[q1[i]],
            keys[q1[j2]],
        ) && (keys[q1[i]] == keys[q1[j2]] ==> q1[i] < q1[j2]) by {
            assert(q1[i] == q[i + 1] && q1[j2] == q[j2 + 1]);
        }
        assert forall|x: int| p1.contains(x) <==> q1.contains(x) by {
            if p1.contains(x) {
                let i = choose|i: int| 0 <= i < p1.len() && p1[i] == x;
                assert(p[i + 1] == x);
                assert(p.contains(x));
                let m = choose|m: int| 0 <= m < q.len() && q[m] == x;
                assert(x != a);
                assert(m > 0);
                assert(q1[m - 1] == x);
            }
            if q1.contains(x) {
                let i = choose|i: int| 0 <= i < q1.len() && q1[i] == x;
                assert(q[i + 1] == x);
                assert(q.contains(x));
                let m = choose|m: int| 0 <= m < p.len() && p[m] == x;
                assert(x != b);
                assert(m > 0);
                assert(p1[m - 1] == x);
            }
        }
        lemma_stably_sorted_unique(keys, p1, q1);
        assert(p =~= q1.insert(0, a));
        assert(q =~= q1.insert(0, b));
    }
}

proof fn lemma_permutation_covers(p: Seq<int>, n: nat, x: int)
    requires
        is_permutation(p, n),
        0 <= x < n,
    ensures
        p.contains(x),
{
    assert(p.no_duplicates());
    p.unique_seq_to_set();
    vstd::set_lib::lemma_int_range(0, n as int);
    let r = vstd::set_lib::set_int_range(0, n as int);
    assert forall|y: int| p.to_set().contains(y) implies r.contains(y) by {
        let i = choose|i: int| 0 <= i < p.len() && p[i] == y;
    }
    vstd::seq_lib::seq_to_set_is_finite(p);
    vstd::set_lib::lemma_subset_equality(p.to_set(), r);
    assert(r.contains(x));
    assert(p.to_set().contains(x));
}

/// The stable order is unique: two permutations that both put `keys` in
/// stable ascending order are the same, so a stable sort has one outcome.
pub proof fn law_stable_order_unique(keys: Seq<Seq<char>>, p: Seq<int>, q: Seq<int>)
    requires
        stable_order(keys, p),
        stable_order(keys, q),
    ensures
        p == q,
{
    assert forall|x: int| p.contains(x) <==> q.contains(x) by {
        if p.contains(x) {
            let i = choose|i: int| 0 <= i < p.len() && p[i] == x;
            lemma_permutation_covers(q, keys.len(), x);
        }
        if q.contains(x) {
            let i = choose|i: int| 0 <= i < q.len() && q[i] == x;
            lemma_permutation_covers(p, keys.len(), x);
        }
    }
    lemma_stably_sorted_unique(keys, p, q);
}

/// A list arranged in a stable order of `keys` is [`sorted_by`] those keys.
pub proof fn lemma_arranged_sorted<T>(out: Seq<T>, items: Seq<T>, keys: Seq<Seq<char>>, p: Seq<int>)
    requires
        stable_order(keys, p),
        arranged(out, items, p),
    ensures
        out == sorted_by(items, keys),
{
    let q = choose|q: Seq<int>| stable_order(keys, q);
    law_stable_order_unique(keys, p, q);
    assert(out =~= sorted_by(items, keys));
}

/// Sorts `items` stably by `keys` (one key per item), as `slice::sort_by`
/// does with a comparison of the keys.
pub fn stable_sort_by_keys<T>(items: Vec<T>, keys: Vec<Vec<char>>) -> (out: Vec<T>)
    requires
        items.len() == keys.len(),
    ensures
        exists|p: Seq<int>| stable_order(views(keys@), p) && arranged(out@, items@, p),
        out@ == sorted_by(items@, views(keys@)),
{
    let ghost all_items = items@;
    let ghost all_keys = views(keys@);
    let n = items.len();
    let mut items = items;
    let mut keys = keys;
    let mut out: Vec<T> = Vec::new();
    let mut out_keys: Vec<Vec<char>> = Vec::new();
    let ghost mut perm: Seq<int> = Seq::empty();
    let mut i: usize = 0;
    while i < n
        invariant
            n == all_items.len() == all_keys.len(),
            i <= n,
            items@ == all_items.skip(i as int),
            views(keys@) == all_keys.skip(i as int),
            out@.len() == i,
            out_keys@.len() == i,
            perm.len() == i,
            forall|q: int| 0 <= q < i ==> 0 <= #[trigger] perm[q] < i,
            forall|q: int, r: int| 0 <= q < r < i ==> perm[q] != perm[r],
            forall|q: int| 0 <= q < i ==> #[trigger] out@[q] == all_items[perm[q]],
            forall|q: int| 0 <= q < i ==> #[trigger] out_keys@[q]@ == all_keys[perm[q]],
            forall|q: int, r: int|
                0 <= q < r < i ==> lex_le(#[trigger] all_keys[perm[q]], #[trigger] all_keys[perm[r]]),
            forall|q: int, r: int|
                0 <= q < r < i && all_keys[perm[q]] == all_keys[perm[r]] ==> perm[q] < perm[r],
        decreases n - i,
    {
        let ghost keys_before = keys@;
        assert(views(keys_before).len() == n - i);
        assert(keys_before.len() == n - i);
        assert(views(keys_before)[0] == keys_before[0]@);
        assert(views(keys_before)[0] == all_keys[i as int]);
        let item = items.remove(0);
        let key = keys.remove(0);
        assert(item == all_items[i as int]);
        assert(key@ == all_keys[i as int]);
        assert(items@ =~= all_items.skip(i + 1));
        assert(keys@ =~= keys_before.remove(0));
        assert forall|q: int| 0 <= q < views(keys@).len() implies views(keys@)[q] == all_keys.skip(
            i + 1,
        )[q] by {
            assert(keys@[q] == keys_before[q + 1]);
            assert(views(keys_before)[q + 1] == keys_before[q + 1]@);
        }
        assert(views(keys@) =~= all_keys.skip(i + 1));
        let mut pos: usize = 0;
        while pos < out_keys.len() && lex_le_chars(&out_keys[pos], &key)
            invariant
                out_keys@.len() == i,
                pos <= i,
                forall|q: int| 0 <= q < pos ==> lex_le(#[trigger] out_keys@[q]@, key@),
            decreases i - pos,
        {
            pos += 1;
        }
        let ghost k = key@;
        proof {
            // Keys from `pos` on are strictly above the new key.
            assert forall|r: int| pos <= r < i implies lex_le(k, #[trigger] all_keys[perm[r]]) && k
                != all_keys[perm[r]] by {
                assert(out_keys@[pos as int]@ == all_keys[perm[pos as int]]);
                assert(!lex_le(all_keys[perm[pos as int]], k));
                lemma_lex_total(all_keys[perm[pos as int]], k);
                if r > pos {
                    assert(lex_le(all_keys[perm[pos as int]], all_keys[perm[r]]));
                    lemma_lex_trans(k, all_keys[perm[pos as int]], all_keys[perm[r]]);
                    if k == all_keys[perm[r]] {
                        assert(lex_le(all_keys[perm[pos as int]], k));
                    }
                }
            }
            assert forall|q: int| 0 <= q < pos implies lex_le(#[trigger] all_keys[perm[q]], k) by {
                assert(out_keys@[q]@ == all_keys[perm[q]]);
            }
        }
        let ghost old_perm = perm;
        let ghost old_out = out@;
        let ghost old_keys = out_keys@;
        out.insert(pos, item);
        out_keys.insert(pos, key);
        proof {
            perm = old_perm.insert(pos as int, i as int);
            assert forall|q: int| 0 <= q <= i implies 0 <= #[trigger] perm[q] < i + 1 by {
                if q < pos {
                    assert(perm[q] == old_perm[q]);
                } else if q > pos {
                    assert(perm[q] == old_perm[q - 1]);
                }
            }
            assert forall|q: int, r: int| 0 <= q < r <= i implies perm[q] != perm[r] by {
                if q < pos {
                    assert(perm[q] == old_perm[q]);
                } else if q > pos {
                    assert(perm[q] == old_perm[q - 1]);
                }
                if r < pos {
                    assert(perm[r] == old_perm[r]);
                } else if r > pos {
                    assert(perm[r] == old_perm[r - 1]);
                }
            }
            assert forall|q: int| 0 <= q <= i implies #[trigger] out@[q] == all_items[perm[q]] by {
                if q < pos {
                    assert(out@[q] == old_out[q]);
                } else if q > pos {
                    assert(out@[q] == old_out[q - 1]);
                }
            }
            assert forall|q: int| 0 <= q <= i implies #[trigger] out_keys@[q]@ == all_keys[perm[q]] by {
                if q < pos {
                    assert(out_keys@[q] == old_keys[q]);
                } else if q > pos {
                    assert(out_keys@[q] == old_keys[q - 1]);
                }
            }
            assert forall|q: int, r: int| 0 <= q < r <= i implies lex_le(
                #[trigger] all_keys[perm[q]],
                #[trigger] all_keys[perm[r]],
            ) by {
                if r < pos {
                    assert(perm[q] == old_perm[q] && perm[r] == old_perm[r]);
                } else if r == pos {
                    assert(perm[q] == old_perm[q]);
                } else if q == pos {
                    assert(perm[r] == old_perm[r - 1]);
                } else if q < pos {
                    assert(perm[q] == old_perm[q] && perm[r] == old_perm[r - 1]);
                } else {
                    assert(perm[q] == old_perm[q - 1] && perm[r] == old_perm[r - 1]);
                }
            }
            assert forall|q: int, r: int|
                0 <= q < r <= i && all_keys[perm[q]] == all_keys[perm[r]] implies perm[q]
                < perm[r] by {
                if r < pos {
                    assert(perm[q] == old_perm[q] && perm[r] == old_perm[r]);
                } else if r == pos {
                    assert(perm[q] == old_perm[q]);
                } else if q == pos {
                    assert(perm[r] == old_perm[r - 1]);
                } else if q < pos {
                    assert(perm[q] == old_perm[q] && perm[r] == old_perm[r - 1]);
                } else {
                    assert(perm[q] == old_perm[q - 1] && perm[r] == old_perm[r - 1]);
                }
            }
        }
        i += 1;
    }
    assert(stable_order(all_keys, perm));
    assert(arranged(out@, all_items, perm));
    proof {
        lemma_arranged_sorted(out@, all_items, all_keys, perm);
    }
    out
}

} // verus!
