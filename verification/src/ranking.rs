use vstd::prelude::*;

verus! {

broadcast use vstd::seq_lib::group_seq_properties;

/// The views of a sequence of values.
pub open spec fn views<T: View>(s: Seq<T>) -> Seq<T::V> {
    s.map_values(|x: T| x@)
}

/// The keys of a sequence of entries.
pub open spec fn keys_of<V>(s: Seq<V>, key: spec_fn(V) -> u64) -> Seq<u64> {
    s.map_values(key)
}

/// Keys in non-increasing order.
pub open spec fn sorted_desc(keys: Seq<u64>) -> bool {
    forall|i: int, j: int| 0 <= i < j < keys.len() ==> #[trigger] keys[i] >= #[trigger] keys[j]
}

/// How many leading keys are at least `k`.
pub open spec fn count_at_least(keys: Seq<u64>, k: u64) -> nat
    decreases keys.len(),
{
    if keys.len() == 0 || keys[0] < k {
        0
    } else {
        1 + count_at_least(keys.drop_first(), k)
    }
}

pub proof fn lemma_count_at_least(keys: Seq<u64>, k: u64)
    ensures
        count_at_least(keys, k) <= keys.len(),
        forall|i: int| 0 <= i < count_at_least(keys, k) ==> #[trigger] keys[i] >= k,
        count_at_least(keys, k) < keys.len() ==> keys[count_at_least(keys, k) as int] < k,
    decreases keys.len(),
{
    if keys.len() > 0 && keys[0] >= k {
        lemma_count_at_least(keys.drop_first(), k);
        assert forall|i: int| 0 <= i < count_at_least(keys, k) implies #[trigger] keys[i] >= k by {
            if i > 0 {
                assert(keys[i] == keys.drop_first()[i - 1]);
            }
        }
    }
}

/// Where a stable sort by descending key puts an entry appended after entries already in that
/// order: after every entry whose key is at least its own.
pub open spec fn ranked_insert<V>(s: Seq<V>, e: V, key: spec_fn(V) -> u64) -> Seq<V> {
    let p = count_at_least(keys_of(s, key), key(e)) as int;
    s.take(p).push(e) + s.skip(p)
}

/// How many entries a top list keeps.
pub open spec fn top_len() -> nat {
    10
}

/// How many entries a top list holds once `n` entries were recorded: `n`, but at most ten.
pub open spec fn top_count(n: nat) -> nat {
    if n > top_len() {
        top_len()
    } else {
        n
    }
}

/// The first ten entries.
pub open spec fn keep_top<V>(s: Seq<V>) -> Seq<V> {
    if s.len() > top_len() {
        s.take(top_len() as int)
    } else {
        s
    }
}

/// A top list after one more entry: placed by descending key after the entries whose key is at
/// least its own (a stable sort), then cut to ten entries.
pub open spec fn top_insert<V>(s: Seq<V>, e: V, key: spec_fn(V) -> u64) -> Seq<V> {
    keep_top(ranked_insert(s, e, key))
}

proof fn lemma_keys_of_ranked<V>(s: Seq<V>, e: V, key: spec_fn(V) -> u64)
    ensures
        keys_of(ranked_insert(s, e, key), key) == ({
            let p = count_at_least(keys_of(s, key), key(e)) as int;
            keys_of(s, key).take(p).push(key(e)) + keys_of(s, key).skip(p)
        }),
{
    lemma_count_at_least(keys_of(s, key), key(e));
    let p = count_at_least(keys_of(s, key), key(e)) as int;
    assert(keys_of(ranked_insert(s, e, key), key) =~= keys_of(s, key).take(p).push(key(e))
        + keys_of(s, key).skip(p));
}

/// Placing an entry keeps a list in descending order.
pub proof fn lemma_ranked_insert_sorted<V>(s: Seq<V>, e: V, key: spec_fn(V) -> u64)
    requires
        sorted_desc(keys_of(s, key)),
    ensures
        sorted_desc(keys_of(ranked_insert(s, e, key), key)),
        sorted_desc(keys_of(top_insert(s, e, key), key)),
        ranked_insert(s, e, key).len() == s.len() + 1,
        ranked_insert(s, e, key).to_multiset() == s.to_multiset().insert(e),
        top_insert(s, e, key).len() == top_count(s.len() + 1),
{
    let ks = keys_of(s, key);
    let k = key(e);
    lemma_count_at_least(ks, k);
    let p = count_at_least(ks, k) as int;
    lemma_keys_of_ranked(s, e, key);
    let nk = keys_of(ranked_insert(s, e, key), key);
    assert forall|i: int, j: int| 0 <= i < j < nk.len() implies #[trigger] nk[i] >= #[trigger] nk[j] by {
        if j < p {
            assert(nk[i] == ks[i] && nk[j] == ks[j]);
        } else if j == p {
            assert(nk[i] == ks[i]);
        } else if i < p {
            assert(nk[i] == ks[i] && nk[j] == ks[j - 1]);
            assert(ks[j - 1] <= ks[p]);
        } else if i == p {
            assert(nk[j] == ks[j - 1]);
            assert(ks[j - 1] <= ks[p]);
        } else {
            assert(nk[i] == ks[i - 1] && nk[j] == ks[j - 1]);
        }
    }
    let r = ranked_insert(s, e, key);
    assert(r =~= s.insert(p, e));
    vstd::seq_lib::to_multiset_insert(s, p, e);
    let t = top_insert(s, e, key);
    let tk = keys_of(t, key);
    assert forall|i: int, j: int| 0 <= i < j < tk.len() implies #[trigger] tk[i] >= #[trigger] tk[j] by {
        assert(tk[i] == nk[i] && tk[j] == nk[j]);
    }
}

/// Cutting the list to its top before placing an entry changes nothing in the top of the
/// result.
pub proof fn lemma_top_insert_of_top<V>(s: Seq<V>, e: V, key: spec_fn(V) -> u64)
    requires
        sorted_desc(keys_of(s, key)),
    ensures
        top_insert(keep_top(s), e, key) == keep_top(ranked_insert(s, e, key)),
{
    let ks = keys_of(s, key);
    let k = key(e);
    lemma_count_at_least(ks, k);
    let p = count_at_least(ks, k) as int;
    let t = keep_top(s);
    let tks = keys_of(t, key);
    lemma_count_at_least(tks, k);
    let q = count_at_least(tks, k) as int;
    if s.len() > 10 {
        assert(tks =~= ks.take(10));
        // q is min(p, 10)
        if p < 10 {
            if q < p {
                assert(tks[q] == ks[q]);
            } else if q > p {
                assert(tks[p] == ks[p]);
            }
            assert(q == p);
            assert(keep_top(ranked_insert(t, e, key)) =~= keep_top(ranked_insert(s, e, key)));
        } else {
            assert(q == 10) by {
                if q < 10 {
                    assert(tks[q] == ks[q]);
                }
            }
            assert(keep_top(ranked_insert(t, e, key)) =~= keep_top(ranked_insert(s, e, key)));
        }
    }
}

/// All entries placed one after another, without cutting: a stable sort by descending key.
pub open spec fn ranked_all<V>(es: Seq<V>, key: spec_fn(V) -> u64) -> Seq<V>
    decreases es.len(),
{
    if es.len() == 0 {
        seq![]
    } else {
        ranked_insert(ranked_all(es.drop_last(), key), es.last(), key)
    }
}

/// The top list after recording all entries one after another, cutting at each step.
pub open spec fn top_all<V>(es: Seq<V>, key: spec_fn(V) -> u64) -> Seq<V>
    decreases es.len(),
{
    if es.len() == 0 {
        seq![]
    } else {
        top_insert(top_all(es.drop_last(), key), es.last(), key)
    }
}

/// The top list kept step by step holds the first ten entries of all entries sorted by
/// descending key, ties in the order they came; that sorted sequence is a permutation of the
/// entries.
pub proof fn law_top_list_is_top_of_all<V>(es: Seq<V>, key: spec_fn(V) -> u64)
    ensures
        top_all(es, key) == keep_top(ranked_all(es, key)),
        sorted_desc(keys_of(ranked_all(es, key), key)),
        ranked_all(es, key).to_multiset() == es.to_multiset(),
    decreases es.len(),
{
    broadcast use vstd::seq_lib::group_to_multiset_ensures;

    if es.len() == 0 {
        assert(keys_of(ranked_all(es, key), key) =~= Seq::<u64>::empty());
        assert(es =~= Seq::<V>::empty());
    } else {
        let init = es.drop_last();
        law_top_list_is_top_of_all(init, key);
        lemma_ranked_insert_sorted(ranked_all(init, key), es.last(), key);
        lemma_top_insert_of_top(ranked_all(init, key), es.last(), key);
        assert(es =~= init.push(es.last()));
    }
}

// ---------------------------------------------------------------------------
// Sums
// ---------------------------------------------------------------------------

/// The sum of a quantity over a sequence of entries.
pub open spec fn sum_of<V>(s: Seq<V>, f: spec_fn(V) -> u64) -> int
    decreases s.len(),
{
    if s.len() == 0 {
        0
    } else {
        sum_of(s.drop_last(), f) + f(s.last())
    }
}

pub proof fn lemma_sum_push<V>(s: Seq<V>, x: V, f: spec_fn(V) -> u64)
    ensures
        sum_of(s.push(x), f) == sum_of(s, f) + f(x),
{
    assert(s.push(x).drop_last() =~= s);
}

pub proof fn lemma_sum_update<V>(s: Seq<V>, i: int, x: V, f: spec_fn(V) -> u64)
    requires
        0 <= i < s.len(),
    ensures
        sum_of(s.update(i, x), f) == sum_of(s, f) - f(s[i]) + f(x),
    decreases s.len(),
{
    let t = s.update(i, x);
    if i == s.len() - 1 {
        assert(t.drop_last() =~= s.drop_last());
    } else {
        assert(t.drop_last() =~= s.drop_last().update(i, x));
        lemma_sum_update(s.drop_last(), i, x, f);
    }
}

pub proof fn lemma_sum_bound<V>(s: Seq<V>, i: int, f: spec_fn(V) -> u64)
    requires
        0 <= i < s.len(),
    ensures
        f(s[i]) <= sum_of(s, f),
        sum_of(s, f) >= 0,
    decreases s.len(),
{
    lemma_sum_nonneg(s.drop_last(), f);
    if i < s.len() - 1 {
        lemma_sum_bound(s.drop_last(), i, f);
    }
}

pub proof fn lemma_sum_nonneg<V>(s: Seq<V>, f: spec_fn(V) -> u64)
    ensures
        sum_of(s, f) >= 0,
    decreases s.len(),
{
    if s.len() > 0 {
        lemma_sum_nonneg(s.drop_last(), f);
    }
}

// ---------------------------------------------------------------------------
// Entries keyed by a name
// ---------------------------------------------------------------------------

/// How many leading entries have a name other than `name`: the position of the entry named
/// `name`, or the length when there is none.
pub open spec fn name_position<V>(s: Seq<V>, name_of: spec_fn(V) -> Seq<char>, name: Seq<char>) -> nat
    decreases s.len(),
{
    if s.len() == 0 || name_of(s[0]) == name {
        0
    } else {
        1 + name_position(s.drop_first(), name_of, name)
    }
}

pub proof fn lemma_name_position<V>(s: Seq<V>, name_of: spec_fn(V) -> Seq<char>, name: Seq<char>)
    ensures
        name_position(s, name_of, name) <= s.len(),
        forall|i: int| 0 <= i < name_position(s, name_of, name) ==> name_of(#[trigger] s[i]) != name,
        name_position(s, name_of, name) < s.len() ==> name_of(s[name_position(s, name_of, name) as int])
            == name,
    decreases s.len(),
{
    if s.len() > 0 && name_of(s[0]) != name {
        lemma_name_position(s.drop_first(), name_of, name);
        assert forall|i: int| 0 <= i < name_position(s, name_of, name) implies name_of(
            #[trigger] s[i],
        ) != name by {
            if i > 0 {
                assert(s[i] == s.drop_first()[i - 1]);
            }
        }
    }
}

/// No two entries have the same name.
pub open spec fn names_unique<V>(s: Seq<V>, name_of: spec_fn(V) -> Seq<char>) -> bool {
    forall|i: int, j: int|
        0 <= i < s.len() && 0 <= j < s.len() && i != j ==> name_of(#[trigger] s[i]) != name_of(
            #[trigger] s[j],
        )
}

// ---------------------------------------------------------------------------
// Sorting entries that carry a unique name
// ---------------------------------------------------------------------------

/// Entries ordered by a strict order that is total on entries of different names.
pub trait NamedOrder: View + Sized {
    /// The name that identifies an entry.
    spec fn name(v: Self::V) -> Seq<char>;

    /// Whether `a` comes strictly before `b`.
    spec fn before(a: Self::V, b: Self::V) -> bool;

    proof fn lemma_irreflexive(a: Self::V)
        ensures
            !Self::before(a, a),
    ;

    proof fn lemma_transitive(a: Self::V, b: Self::V, c: Self::V)
        requires
            Self::before(a, b),
            Self::before(b, c),
        ensures
            Self::before(a, c),
    ;

    proof fn lemma_total(a: Self::V, b: Self::V)
        requires
            Self::name(a) != Self::name(b),
        ensures
            Self::before(a, b) || Self::before(b, a),
    ;

    fn is_before(&self, other: &Self) -> (r: bool)
        ensures
            r == Self::before(self@, other@),
    ;

    fn copy(&self) -> (r: Self)
        ensures
            r@ == self@,
    ;
}

/// The names of a sequence of entries.
pub open spec fn name_fn<T: NamedOrder>() -> spec_fn(T::V) -> Seq<char> {
    |v: T::V| T::name(v)
}

/// Strictly increasing in the order of `T`.
pub open spec fn strictly_ordered<T: NamedOrder>(s: Seq<T::V>) -> bool {
    forall|i: int, j: int| 0 <= i < j < s.len() ==> T::before(#[trigger] s[i], #[trigger] s[j])
}

/// The entries in the order of `T`: the same entries, each once, in increasing order.
pub fn sort_by_order<T: NamedOrder>(items: &Vec<T>) -> (r: Vec<T>)
    requires
        names_unique(views(items@), name_fn::<T>()),
    ensures
        strictly_ordered::<T>(views(r@)),
        views(r@).to_multiset() == views(items@).to_multiset(),
        r@.len() == items@.len(),
        names_unique(views(r@), name_fn::<T>()),
{
    broadcast use vstd::seq_lib::group_to_multiset_ensures;

    let ghost iv = views(items@);
    let mut out: Vec<T> = Vec::new();
    let mut i: usize = 0;
    assert(iv.take(0) =~= Seq::<T::V>::empty());
    assert(views(out@) =~= Seq::<T::V>::empty());
    while i < items.len()
        invariant
            iv == views(items@),
            names_unique(iv, name_fn::<T>()),
            0 <= i <= items.len(),
            out@.len() == i,
            strictly_ordered::<T>(views(out@)),
            views(out@).to_multiset() == iv.take(i as int).to_multiset(),
        decreases items.len() - i,
    {
        let e = items[i].copy();
        let ghost ev = e@;
        assert(ev == iv[i as int]);
        let ghost ov = views(out@);
        // the new entry's name differs from the name of every entry placed so far
        assert forall|x: int| 0 <= x < ov.len() implies T::name(ov[x]) != T::name(ev) by {
            assert(ov.to_multiset().contains(ov[x]));
            assert(iv.take(i as int).to_multiset().contains(ov[x]));
            assert(iv.take(i as int).contains(ov[x]));
            let y = choose|y: int| 0 <= y < i && iv.take(i as int)[y] == ov[x];
            assert(iv[y] == ov[x]);
            assert(name_fn::<T>()(iv[y]) != name_fn::<T>()(iv[i as int]));
        }
        let mut j: usize = 0;
        let mut stop = false;
        while j < out.len() && !stop
            invariant
                ov == views(out@),
                e@ == ev,
                0 <= j <= out.len(),
                stop ==> j < out.len() && T::before(ev, ov[j as int]),
                forall|x: int| 0 <= x < j ==> T::before(#[trigger] ov[x], ev),
                forall|x: int| 0 <= x < ov.len() ==> T::name(#[trigger] ov[x]) != T::name(ev),
            decreases out.len() - j, (if stop { 0int } else { 1int }),
        {
            if e.is_before(&out[j]) {
                stop = true;
            } else {
                proof {
                    T::lemma_total(ov[j as int], ev);
                }
                j = j + 1;
            }
        }
        let ghost at = j as int;
        assert forall|x: int| at <= x < ov.len() implies T::before(ev, #[trigger] ov[x]) by {
            if x > at {
                T::lemma_transitive(ev, ov[at], ov[x]);
            }
        }
        out.insert(j, e);
        proof {
            let nv = views(out@);
            assert(nv =~= ov.insert(at, ev));
            vstd::seq_lib::to_multiset_insert(ov, at, ev);
            assert(iv.take(i + 1) =~= iv.take(i as int).push(ev));
            assert forall|a: int, b: int| 0 <= a < b < nv.len() implies T::before(
                #[trigger] nv[a],
                #[trigger] nv[b],
            ) by {
                if b < at {
                    assert(nv[a] == ov[a] && nv[b] == ov[b]);
                } else if b == at {
                    assert(nv[a] == ov[a]);
                } else if a < at {
                    assert(nv[a] == ov[a] && nv[b] == ov[b - 1]);
                    T::lemma_transitive(ov[a], ev, ov[b - 1]);
                } else if a == at {
                    assert(nv[b] == ov[b - 1]);
                } else {
                    assert(nv[a] == ov[a - 1] && nv[b] == ov[b - 1]);
                }
            }
        }
        i = i + 1;
    }
    assert(iv.take(items.len() as int) =~= iv);
    proof {
        let ov = views(out@);
        assert forall|a: int, b: int| 0 <= a < b < ov.len() implies ov[a] != ov[b] by {
            T::lemma_irreflexive(ov[a]);
        }
        lemma_names_unique_permutation(ov, iv, name_fn::<T>());
    }
    out
}

/// A rearrangement of entries with distinct names, without repeated entries, keeps the names
/// distinct.
pub proof fn lemma_names_unique_permutation<V>(a: Seq<V>, b: Seq<V>, name_of: spec_fn(V) -> Seq<char>)
    requires
        names_unique(b, name_of),
        a.to_multiset() == b.to_multiset(),
        forall|i: int, j: int| 0 <= i < j < a.len() ==> a[i] != a[j],
    ensures
        names_unique(a, name_of),
{
    broadcast use vstd::seq_lib::group_to_multiset_ensures;

    assert forall|i: int, j: int|
        0 <= i < a.len() && 0 <= j < a.len() && i != j implies name_of(#[trigger] a[i]) != name_of(
        #[trigger] a[j],
    ) by {
        assert(a.to_multiset().count(a[i]) > 0);
        assert(a.to_multiset().count(a[j]) > 0);
        assert(b.contains(a[i]));
        assert(b.contains(a[j]));
        let p = choose|p: int| 0 <= p < b.len() && b[p] == a[i];
        let q = choose|q: int| 0 <= q < b.len() && b[q] == a[j];
        if i < j {
            assert(a[i] != a[j]);
        } else {
            assert(a[j] != a[i]);
        }
        assert(p != q);
    }
}

pub proof fn lemma_sum_remove<V>(s: Seq<V>, k: int, f: spec_fn(V) -> u64)
    requires
        0 <= k < s.len(),
    ensures
        sum_of(s, f) == sum_of(s.remove(k), f) + f(s[k]),
    decreases s.len(),
{
    if k == s.len() - 1 {
        assert(s.remove(k) =~= s.drop_last());
    } else {
        let t = s.remove(k);
        assert(t.drop_last() =~= s.drop_last().remove(k));
        assert(t.last() == s.last());
        lemma_sum_remove(s.drop_last(), k, f);
    }
}

/// A sum does not depend on the order of the entries.
pub proof fn lemma_sum_permutation<V>(a: Seq<V>, b: Seq<V>, f: spec_fn(V) -> u64)
    requires
        a.to_multiset() == b.to_multiset(),
    ensures
        sum_of(a, f) == sum_of(b, f),
    decreases a.len(),
{
    broadcast use vstd::seq_lib::group_to_multiset_ensures;

    if a.len() == 0 {
        assert(b.to_multiset().len() == 0);
        assert(b.len() == 0);
    } else {
        let x = a.last();
        assert(a =~= a.drop_last().push(x));
        assert(a.to_multiset().count(x) > 0);
        assert(b.to_multiset().count(x) > 0);
        assert(b.contains(x));
        let k = choose|k: int| 0 <= k < b.len() && b[k] == x;
        vstd::seq_lib::to_multiset_remove(b, k);
        assert(b.remove(k).to_multiset() =~= a.drop_last().to_multiset());
        lemma_sum_permutation(a.drop_last(), b.remove(k), f);
        lemma_sum_remove(b, k, f);
    }
}

} // verus!
