use vstd::prelude::*;
use vstd::seq_lib::to_multiset_build;
use vstd::seq_lib::to_multiset_insert;
use crate::freq::Freq;
use crate::inventory::inv_view;
use crate::inventory::views;
use crate::order::lex_le;
use crate::order::lemma_lex_le_refl;
use crate::order::lemma_lex_le_total;
use crate::order::lemma_lex_le_trans;
use crate::order::ts_key;
use crate::order::ts_le;

verus! {

/// The names of `inv`'s records of class `f`, in scan order.
pub open spec fn class_names(inv: Seq<(Freq, Seq<char>)>, f: Freq) -> Seq<Seq<char>>
    decreases inv.len(),
{
    if inv.len() == 0 {
        Seq::empty()
    } else {
        let rest = class_names(inv.drop_last(), f);
        if inv.last().0 == f {
            rest.push(inv.last().1)
        } else {
            rest
        }
    }
}

/// Ascending by timestamp key.
pub open spec fn sorted_by_stamp(s: Seq<Seq<char>>) -> bool {
    forall|i: int, j: int| 0 <= i < j < s.len() ==> lex_le(ts_key(s[i]), ts_key(s[j]))
}

/// Where stable insertion puts `x`: after every leading element whose key
/// is at most `x`'s, so an equal key keeps scan order.
pub open spec fn insert_pos(x: Seq<char>, s: Seq<Seq<char>>) -> int
    decreases s.len(),
{
    if s.len() == 0 {
        0
    } else if lex_le(ts_key(s[0]), ts_key(x)) {
        1 + insert_pos(x, s.drop_first())
    } else {
        0
    }
}

/// Stable insertion of `x` into `s` by timestamp key.
pub open spec fn insert_ord(x: Seq<char>, s: Seq<Seq<char>>) -> Seq<Seq<char>>
    decreases s.len(),
{
    if s.len() == 0 {
        seq![x]
    } else if lex_le(ts_key(s[0]), ts_key(x)) {
        seq![s[0]] + insert_ord(x, s.drop_first())
    } else {
        seq![x] + s
    }
}

/// Stable sort by timestamp key: elements inserted in scan order.
pub open spec fn sort_by_stamp(s: Seq<Seq<char>>) -> Seq<Seq<char>>
    decreases s.len(),
{
    if s.len() == 0 {
        s
    } else {
        insert_ord(s.last(), sort_by_stamp(s.drop_last()))
    }
}

/// The subsequence of `s` whose timestamp key is exactly `k`, in order.
pub open spec fn with_key(s: Seq<Seq<char>>, k: Seq<char>) -> Seq<Seq<char>>
    decreases s.len(),
{
    if s.len() == 0 {
        s
    } else if ts_key(s[0]) == k {
        seq![s[0]] + with_key(s.drop_first(), k)
    } else {
        with_key(s.drop_first(), k)
    }
}

/// How many records of a class must go to get back down to `keep`.
pub open spec fn excess_of(n: int, keep: int) -> int {
    if n > keep {
        n - keep
    } else {
        0
    }
}

/// The names pruning selects for deletion from class `f`: the oldest
/// records beyond the `keep` newest, oldest first.
pub open spec fn victims_spec(inv: Seq<(Freq, Seq<char>)>, f: Freq, keep: int) -> Seq<Seq<char>> {
    let sorted = sort_by_stamp(class_names(inv, f));
    sorted.take(excess_of(sorted.len() as int, keep))
}

/// Stable insertion is an insertion at `insert_pos`, which bounds the keys
/// on its left and right.
proof fn lemma_insert_ord_shape(x: Seq<char>, s: Seq<Seq<char>>)
    ensures
        0 <= insert_pos(x, s) <= s.len(),
        insert_ord(x, s) == s.insert(insert_pos(x, s), x),
        forall|j: int| 0 <= j < insert_pos(x, s) ==> lex_le(ts_key(s[j]), ts_key(x)),
        insert_pos(x, s) == s.len() || !lex_le(ts_key(s[insert_pos(x, s)]), ts_key(x)),
    decreases s.len(),
{
    if s.len() == 0 {
        assert(s.insert(0, x) =~= seq![x]);
    } else if lex_le(ts_key(s[0]), ts_key(x)) {
        lemma_insert_ord_shape(x, s.drop_first());
        let p = insert_pos(x, s.drop_first());
        assert(seq![s[0]] + s.drop_first().insert(p, x) =~= s.insert(p + 1, x));
        assert forall|j: int| 0 <= j < insert_pos(x, s) implies lex_le(
            ts_key(s[j]),
            ts_key(x),
        ) by {
            if j > 0 {
                assert(s[j] == s.drop_first()[j - 1]);
                assert(lex_le(ts_key(s.drop_first()[j - 1]), ts_key(x)));
            }
        }
    } else {
        assert(seq![x] + s =~= s.insert(0, x));
    }
}

/// Inserting into a sorted sequence keeps it sorted.
proof fn lemma_insert_ord_sorted(x: Seq<char>, s: Seq<Seq<char>>)
    requires
        sorted_by_stamp(s),
    ensures
        sorted_by_stamp(insert_ord(x, s)),
{
    lemma_insert_ord_shape(x, s);
    let p = insert_pos(x, s);
    let r = insert_ord(x, s);
    s.insert_ensures(p, x);
    if p < s.len() {
        lemma_lex_le_total(ts_key(s[p]), ts_key(x));
    }
    assert forall|i: int, j: int| 0 <= i < j < r.len() implies lex_le(
        ts_key(r[i]),
        ts_key(r[j]),
    ) by {
        if i == p && j > p {
            assert(r[j] == s[j - 1]);
            if j - 1 > p {
                lemma_lex_le_trans(ts_key(x), ts_key(s[p]), ts_key(s[j - 1]));
            }
        } else if i < p && j == p {
            assert(r[i] == s[i]);
        } else if i < p && j > p {
            assert(r[i] == s[i] && r[j] == s[j - 1]);
        } else if i > p {
            assert(r[i] == s[i - 1] && r[j] == s[j - 1]);
        } else {
            assert(r[i] == s[i] && r[j] == s[j]);
        }
    }
}

proof fn lemma_with_key_concat(a: Seq<Seq<char>>, b: Seq<Seq<char>>, k: Seq<char>)
    ensures
        with_key(a + b, k) == with_key(a, k) + with_key(b, k),
    decreases a.len(),
{
    if a.len() == 0 {
        assert(a + b =~= b);
        assert(with_key(a, k) + with_key(b, k) =~= with_key(b, k));
    } else {
        assert((a + b).drop_first() =~= a.drop_first() + b);
        assert((a + b)[0] == a[0]);
        lemma_with_key_concat(a.drop_first(), b, k);
        if ts_key(a[0]) == k {
            assert(seq![a[0]] + (with_key(a.drop_first(), k) + with_key(b, k)) =~= (seq![a[0]]
                + with_key(a.drop_first(), k)) + with_key(b, k));
        }
    }
}

proof fn lemma_with_key_absent(s: Seq<Seq<char>>, k: Seq<char>)
    requires
        forall|i: int| 0 <= i < s.len() ==> ts_key(s[i]) != k,
    ensures
        with_key(s, k) == Seq::<Seq<char>>::empty(),
    decreases s.len(),
{
    if s.len() == 0 {
        assert(s =~= Seq::<Seq<char>>::empty());
    } else {
        lemma_with_key_absent(s.drop_first(), k);
    }
}

proof fn lemma_with_key_single(x: Seq<char>, k: Seq<char>)
    ensures
        ts_key(x) == k ==> with_key(seq![x], k) == seq![x],
        ts_key(x) != k ==> with_key(seq![x], k) == Seq::<Seq<char>>::empty(),
{
    let s = seq![x];
    assert(s.len() == 1 && s[0] == x);
    assert(s.drop_first() =~= Seq::<Seq<char>>::empty());
    assert(with_key(s.drop_first(), k) =~= Seq::<Seq<char>>::empty());
    if ts_key(x) == k {
        assert(with_key(s, k) == seq![s[0]] + with_key(s.drop_first(), k));
        assert(seq![s[0]] + with_key(s.drop_first(), k) =~= seq![x]);
    } else {
        assert(with_key(s, k) == with_key(s.drop_first(), k));
    }
}

/// Inserting into a sorted sequence appends `x` to the run of its own key
/// and leaves every other key's run unchanged: ties keep insertion order.
proof fn lemma_insert_ord_with_key(x: Seq<char>, s: Seq<Seq<char>>, k: Seq<char>)
    requires
        sorted_by_stamp(s),
    ensures
        k == ts_key(x) ==> with_key(insert_ord(x, s), k) == with_key(s, k).push(x),
        k != ts_key(x) ==> with_key(insert_ord(x, s), k) == with_key(s, k),
{
    lemma_insert_ord_shape(x, s);
    let p = insert_pos(x, s);
    let left = s.subrange(0, p);
    let right = s.subrange(p, s.len() as int);
    assert(insert_ord(x, s) =~= left + (seq![x] + right));
    lemma_with_key_concat(left, seq![x] + right, k);
    lemma_with_key_concat(seq![x], right, k);
    lemma_with_key_single(x, k);
    assert(s =~= left + right);
    lemma_with_key_concat(left, right, k);
    if k == ts_key(x) {
        assert forall|i: int| 0 <= i < right.len() implies ts_key(right[i]) != k by {
            if ts_key(right[i]) == k {
                if i == 0 {
                    lemma_lex_le_refl(ts_key(x));
                } else {
                    assert(lex_le(ts_key(s[p]), ts_key(s[p + i])));
                }
            }
        }
        lemma_with_key_absent(right, k);
        assert(with_key(left, k) + (seq![x] + Seq::<Seq<char>>::empty()) =~= (with_key(left, k)
            + Seq::<Seq<char>>::empty()).push(x));
    } else {
        assert(with_key(left, k) + (Seq::<Seq<char>>::empty() + with_key(right, k)) =~= with_key(
            left,
            k,
        ) + with_key(right, k));
    }
}

proof fn lemma_with_key_push(t: Seq<Seq<char>>, a: Seq<char>, k: Seq<char>)
    ensures
        ts_key(a) == k ==> with_key(t.push(a), k) == with_key(t, k).push(a),
        ts_key(a) != k ==> with_key(t.push(a), k) == with_key(t, k),
    decreases t.len(),
{
    if t.len() == 0 {
        assert(t.push(a) =~= seq![a]);
        lemma_with_key_single(a, k);
        if ts_key(a) == k {
            assert(with_key(t, k).push(a) =~= seq![a]);
        }
    } else {
        assert(t.push(a).drop_first() =~= t.drop_first().push(a));
        assert(t.push(a)[0] == t[0]);
        lemma_with_key_push(t.drop_first(), a, k);
        if ts_key(t[0]) == k && ts_key(a) == k {
            assert(seq![t[0]] + with_key(t.drop_first(), k).push(a) =~= (seq![t[0]] + with_key(
                t.drop_first(),
                k,
            )).push(a));
        }
    }
}

/// Sorting preserves length and sorts by timestamp key.
pub proof fn lemma_sort_sorted(s: Seq<Seq<char>>)
    ensures
        sorted_by_stamp(sort_by_stamp(s)),
        sort_by_stamp(s).len() == s.len(),
    decreases s.len(),
{
    if s.len() > 0 {
        lemma_sort_sorted(s.drop_last());
        lemma_insert_ord_sorted(s.last(), sort_by_stamp(s.drop_last()));
        lemma_insert_ord_shape(s.last(), sort_by_stamp(s.drop_last()));
        sort_by_stamp(s.drop_last()).insert_ensures(
            insert_pos(s.last(), sort_by_stamp(s.drop_last())),
            s.last(),
        );
    }
}

/// Sorting permutes: no record appears or disappears.
pub proof fn lemma_sort_permutes(s: Seq<Seq<char>>)
    ensures
        sort_by_stamp(s).to_multiset() == s.to_multiset(),
    decreases s.len(),
{
    if s.len() > 0 {
        let rest = sort_by_stamp(s.drop_last());
        lemma_sort_permutes(s.drop_last());
        lemma_insert_ord_shape(s.last(), rest);
        to_multiset_insert(rest, insert_pos(s.last(), rest), s.last());
        to_multiset_build(s.drop_last(), s.last());
        assert(s.drop_last().push(s.last()) =~= s);
    }
}

/// Sorting is stable: for every key, the run of records with that key is
/// exactly the records that had it, in scan order.
pub proof fn lemma_sort_stable(s: Seq<Seq<char>>, k: Seq<char>)
    ensures
        with_key(sort_by_stamp(s), k) == with_key(s, k),
    decreases s.len(),
{
    if s.len() > 0 {
        lemma_sort_stable(s.drop_last(), k);
        lemma_sort_sorted(s.drop_last());
        lemma_insert_ord_with_key(s.last(), sort_by_stamp(s.drop_last()), k);
        lemma_with_key_push(s.drop_last(), s.last(), k);
        assert(s.drop_last().push(s.last()) =~= s);
    }
}

/// Sorts names ascending by timestamp key, stably.
fn sort_names(v: Vec<String>) -> (r: Vec<String>)
    ensures
        views(r@) == sort_by_stamp(views(v@)),
{
    let mut out: Vec<String> = Vec::new();
    let mut i: usize = 0;
    while i < v.len()
        invariant
            i <= v@.len(),
            views(out@) == sort_by_stamp(views(v@).take(i as int)),
        decreases v@.len() - i,
    {
        let x = v[i].clone();
        let mut p: usize = 0;
        while p < out.len() && ts_le(out[p].as_str(), x.as_str())
            invariant
                p <= out@.len(),
                x@ == v@[i as int]@,
                forall|j: int| 0 <= j < p ==> lex_le(ts_key(views(out@)[j]), ts_key(x@)),
            decreases out@.len() - p,
        {
            p += 1;
        }
        let ghost pre = views(out@);
        proof {
            lemma_insert_ord_shape(x@, pre);
            let sp = insert_pos(x@, pre);
            if p < sp {
                assert(lex_le(ts_key(pre[p as int]), ts_key(x@)));
            } else if sp < p {
                assert(lex_le(ts_key(pre[sp]), ts_key(x@)));
            }
            assert(p == sp);
        }
        out.insert(p, x);
        proof {
            assert(views(out@) =~= pre.insert(p as int, v@[i as int]@));
            assert(views(v@).take(i + 1).drop_last() =~= views(v@).take(i as int));
            assert(views(v@).take(i + 1).last() == v@[i as int]@);
        }
        i += 1;
    }
    proof {
        assert(views(v@).take(v@.len() as int) =~= views(v@));
    }
    out
}

/// Selects the snapshots of class `freq` to delete: everything except the
/// `keep` newest by timestamp, oldest first, ties broken by scan order.
pub fn select_victims(inv: &Vec<(Freq, String)>, freq: &Freq, keep: usize) -> (victims: Vec<
    String,
>)
    ensures
        views(victims@) == victims_spec(inv_view(inv@), *freq, keep as int),
{
    let mut names: Vec<String> = Vec::new();
    let mut i: usize = 0;
    while i < inv.len()
        invariant
            i <= inv@.len(),
            views(names@) == class_names(inv_view(inv@).take(i as int), *freq),
        decreases inv@.len() - i,
    {
        let ghost pre = views(names@);
        if inv[i].0 == *freq {
            names.push(inv[i].1.clone());
            proof {
                assert(views(names@) =~= pre.push(inv@[i as int].1@));
            }
        }
        proof {
            assert(inv_view(inv@).take(i + 1).drop_last() =~= inv_view(inv@).take(i as int));
            assert(inv_view(inv@).take(i + 1).last() == inv_view(inv@)[i as int]);
        }
        i += 1;
    }
    proof {
        assert(inv_view(inv@).take(inv@.len() as int) =~= inv_view(inv@));
    }
    let mut sorted = sort_names(names);
    let n = sorted.len();
    let excess = if n > keep {
        n - keep
    } else {
        0
    };
    sorted.truncate(excess);
    proof {
        assert(views(sorted@) =~= victims_spec(inv_view(inv@), *freq, keep as int));
    }
    sorted
}

/// Retention law: pruning class `f` to `keep` leaves exactly
/// `min(n, keep)` records — the `keep` chronologically newest by timestamp
/// key — deletes the oldest ones, and breaks equal stamps by scan order.
pub proof fn lemma_retention(inv: Seq<(Freq, Seq<char>)>, f: Freq, keep: int)
    requires
        keep >= 0,
    ensures
        ({
            let all = class_names(inv, f);
            let sorted = sort_by_stamp(all);
            let e = excess_of(all.len() as int, keep);
            let victims = victims_spec(inv, f, keep);
            let kept = sorted.skip(e);
            &&& victims == sorted.take(e)
            &&& victims.len() == e
            &&& kept.len() == (if all.len() >= keep {
                keep
            } else {
                all.len() as int
            })
            &&& sorted.to_multiset() == all.to_multiset()
            &&& sorted_by_stamp(sorted)
            &&& sorted_by_stamp(kept)
            &&& (forall|i: int, j: int|
                0 <= i < e && e <= j < sorted.len() ==> lex_le(ts_key(sorted[i]), ts_key(sorted[j])))
            &&& (forall|k: Seq<char>| #[trigger] with_key(sorted, k) == with_key(all, k))
        }),
{
    let all = class_names(inv, f);
    let sorted = sort_by_stamp(all);
    let e = excess_of(all.len() as int, keep);
    lemma_sort_sorted(all);
    lemma_sort_permutes(all);
    assert forall|k: Seq<char>| #[trigger] with_key(sorted, k) == with_key(all, k) by {
        lemma_sort_stable(all, k);
    }
    assert forall|i: int, j: int| 0 <= i < j < sorted.skip(e).len() implies lex_le(
        ts_key(sorted.skip(e)[i]),
        ts_key(sorted.skip(e)[j]),
    ) by {
        assert(sorted.skip(e)[i] == sorted[e + i] && sorted.skip(e)[j] == sorted[e + j]);
    }
}

} // verus!
