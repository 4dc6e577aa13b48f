//! Generic facts about searching sequences.
use vstd::multiset::Multiset;
use vstd::prelude::*;

verus! {

/// Index of the first element satisfying `p`, or -1.
pub open spec fn first_where<A>(s: Seq<A>, p: spec_fn(A) -> bool) -> int
    decreases s.len(),
{
    if s.len() == 0 {
        -1
    } else {
        let r = first_where(s.drop_last(), p);
        if r >= 0 {
            r
        } else if p(s.last()) {
            s.len() - 1
        } else {
            -1
        }
    }
}

pub proof fn lemma_first_where<A>(s: Seq<A>, p: spec_fn(A) -> bool)
    ensures
        -1 <= first_where(s, p) < s.len(),
        first_where(s, p) >= 0 ==> p(s[first_where(s, p)]),
        forall|k: int| 0 <= k < first_where(s, p) ==> !p(#[trigger] s[k]),
        first_where(s, p) < 0 ==> forall|k: int| 0 <= k < s.len() ==> !p(#[trigger] s[k]),
    decreases s.len(),
{
    if s.len() > 0 {
        let t = s.drop_last();
        lemma_first_where(t, p);
        assert forall|k: int| 0 <= k < t.len() implies s[k] == #[trigger] t[k] by {}
        let r = first_where(t, p);
        if r >= 0 {
            assert(s[r] == t[r]);
            assert forall|k: int| 0 <= k < r implies !p(#[trigger] s[k]) by {
                assert(s[k] == t[k]);
            }
        } else {
            assert forall|k: int| 0 <= k < s.len() - 1 implies !p(#[trigger] s[k]) by {
                assert(s[k] == t[k]);
            }
        }
    }
}

/// The first index satisfying `p` is `i` when `i` satisfies it and no earlier one does.
pub proof fn lemma_first_where_is<A>(s: Seq<A>, p: spec_fn(A) -> bool, i: int)
    requires
        0 <= i < s.len(),
        p(s[i]),
        forall|k: int| 0 <= k < i ==> !p(#[trigger] s[k]),
    ensures
        first_where(s, p) == i,
{
    lemma_first_where(s, p);
}

/// No element satisfies `p`.
pub proof fn lemma_first_where_none<A>(s: Seq<A>, p: spec_fn(A) -> bool)
    requires
        forall|k: int| 0 <= k < s.len() ==> !p(#[trigger] s[k]),
    ensures
        first_where(s, p) == -1,
{
    lemma_first_where(s, p);
    if first_where(s, p) >= 0 {
        assert(p(s[first_where(s, p)]));
    }
}

/// The elements satisfying `p`, in order (defined from the front).
pub open spec fn keep<A>(s: Seq<A>, p: spec_fn(A) -> bool) -> Seq<A>
    decreases s.len(),
{
    if s.len() == 0 {
        Seq::empty()
    } else if p(s[0]) {
        seq![s[0]] + keep(s.drop_first(), p)
    } else {
        keep(s.drop_first(), p)
    }
}

pub proof fn lemma_keep_append<A>(a: Seq<A>, b: Seq<A>, p: spec_fn(A) -> bool)
    ensures
        keep(a + b, p) == keep(a, p) + keep(b, p),
    decreases a.len(),
{
    if a.len() == 0 {
        assert(a + b =~= b);
        assert(keep(a, p) + keep(b, p) =~= keep(b, p));
    } else {
        assert((a + b).drop_first() =~= a.drop_first() + b);
        assert((a + b)[0] == a[0]);
        lemma_keep_append(a.drop_first(), b, p);
        if p(a[0]) {
            assert(seq![a[0]] + keep(a.drop_first(), p) + keep(b, p) =~= seq![a[0]] + (keep(
                a.drop_first(),
                p,
            ) + keep(b, p)));
        }
    }
}

pub proof fn lemma_keep_single<A>(x: A, p: spec_fn(A) -> bool)
    ensures
        keep(seq![x], p) == (if p(x) {
            seq![x]
        } else {
            Seq::<A>::empty()
        }),
{
    assert(seq![x].drop_first() =~= Seq::<A>::empty());
    assert(seq![x][0] == x);
    assert(keep(Seq::<A>::empty(), p) == Seq::<A>::empty());
    if p(x) {
        assert(seq![x] + Seq::<A>::empty() =~= seq![x]);
    }
}

pub proof fn lemma_keep_push<A>(a: Seq<A>, x: A, p: spec_fn(A) -> bool)
    ensures
        keep(a.push(x), p) == (if p(x) {
            keep(a, p).push(x)
        } else {
            keep(a, p)
        }),
{
    assert(a.push(x) =~= a + seq![x]);
    lemma_keep_append(a, seq![x], p);
    lemma_keep_single(x, p);
    if p(x) {
        assert(keep(a, p) + seq![x] =~= keep(a, p).push(x));
    } else {
        assert(keep(a, p) + Seq::<A>::empty() =~= keep(a, p));
    }
}

pub proof fn lemma_keep_len<A>(s: Seq<A>, p: spec_fn(A) -> bool)
    ensures
        keep(s, p).len() <= s.len(),
        forall|i: int| 0 <= i < keep(s, p).len() ==> p(#[trigger] keep(s, p)[i]),
        forall|i: int| 0 <= i < keep(s, p).len() ==> s.contains(#[trigger] keep(s, p)[i]),
    decreases s.len(),
{
    if s.len() > 0 {
        lemma_keep_len(s.drop_first(), p);
        let k = keep(s.drop_first(), p);
        if p(s[0]) {
            assert forall|i: int| 0 <= i < keep(s, p).len() implies s.contains(
                #[trigger] keep(s, p)[i],
            ) by {
                if i == 0 {
                    assert(s[0] == keep(s, p)[0]);
                } else {
                    assert(keep(s, p)[i] == k[i - 1]);
                    let j = choose|j: int| 0 <= j < s.drop_first().len() && s.drop_first()[j] == k[i - 1];
                    assert(s[j + 1] == k[i - 1]);
                }
            }
        } else {
            assert forall|i: int| 0 <= i < keep(s, p).len() implies s.contains(
                #[trigger] keep(s, p)[i],
            ) by {
                let j = choose|j: int| 0 <= j < s.drop_first().len() && s.drop_first()[j] == k[i];
                assert(s[j + 1] == k[i]);
            }
        }
    }
}

pub proof fn lemma_keep_all<A>(s: Seq<A>, p: spec_fn(A) -> bool)
    requires
        forall|i: int| 0 <= i < s.len() ==> p(#[trigger] s[i]),
    ensures
        keep(s, p) == s,
    decreases s.len(),
{
    if s.len() > 0 {
        assert forall|i: int| 0 <= i < s.drop_first().len() implies p(
            #[trigger] s.drop_first()[i],
        ) by {
            assert(s.drop_first()[i] == s[i + 1]);
        }
        lemma_keep_all(s.drop_first(), p);
        assert(seq![s[0]] + s.drop_first() =~= s);
    }
}

pub proof fn lemma_keep_none<A>(s: Seq<A>, p: spec_fn(A) -> bool)
    requires
        forall|i: int| 0 <= i < s.len() ==> !p(#[trigger] s[i]),
    ensures
        keep(s, p) == Seq::<A>::empty(),
    decreases s.len(),
{
    if s.len() > 0 {
        assert forall|i: int| 0 <= i < s.drop_first().len() implies !p(
            #[trigger] s.drop_first()[i],
        ) by {
            assert(s.drop_first()[i] == s[i + 1]);
        }
        lemma_keep_none(s.drop_first(), p);
    }
}

pub proof fn lemma_keep_multiset<A>(s: Seq<A>, p: spec_fn(A) -> bool)
    ensures
        keep(s, p).to_multiset().add(keep(s, |x: A| !p(x)).to_multiset()) == s.to_multiset(),
    decreases s.len(),
{
    broadcast use vstd::seq_lib::group_to_multiset_ensures;
    let np = |x: A| !p(x);
    if s.len() == 0 {
        assert(keep(s, p).to_multiset() =~= Multiset::empty());
        assert(keep(s, np).to_multiset() =~= Multiset::empty());
        assert(s.to_multiset() =~= Multiset::empty());
    } else {
        lemma_keep_multiset(s.drop_first(), p);
        let t = s.drop_first();
        assert(s =~= seq![s[0]] + t);
        vstd::seq_lib::lemma_multiset_commutative(seq![s[0]], t);
        vstd::seq_lib::lemma_multiset_commutative(seq![s[0]], keep(t, p));
        vstd::seq_lib::lemma_multiset_commutative(seq![s[0]], keep(t, np));
        assert(seq![s[0]].to_multiset() =~= Multiset::empty().insert(s[0])) by {
            assert(seq![s[0]] =~= Seq::<A>::empty().push(s[0]));
        }
        if p(s[0]) {
            assert(keep(s, p) == seq![s[0]] + keep(t, p));
            assert(keep(s, np) == keep(t, np));
        } else {
            assert(keep(s, p) == keep(t, p));
            assert(keep(s, np) == seq![s[0]] + keep(t, np));
        }
        assert(keep(s, p).to_multiset().add(keep(s, np).to_multiset()) =~= s.to_multiset());
    }
}

} // verus!

verus! {

/// Filtering twice is filtering by both conditions.
pub proof fn lemma_keep_keep<A>(s: Seq<A>, q: spec_fn(A) -> bool, r: spec_fn(A) -> bool)
    ensures
        keep(keep(s, q), r) == keep(s, |x: A| q(x) && r(x)),
    decreases s.len(),
{
    let qr = |x: A| q(x) && r(x);
    if s.len() > 0 {
        lemma_keep_keep(s.drop_first(), q, r);
        let t = s.drop_first();
        if q(s[0]) {
            assert(keep(s, q) == seq![s[0]] + keep(t, q));
            lemma_keep_append(seq![s[0]], keep(t, q), r);
            lemma_keep_single(s[0], r);
            if r(s[0]) {
                assert(keep(s, qr) == seq![s[0]] + keep(t, qr));
            } else {
                assert(keep(s, qr) == keep(t, qr));
                assert(Seq::<A>::empty() + keep(keep(t, q), r) =~= keep(keep(t, q), r));
            }
        } else {
            assert(keep(s, q) == keep(t, q));
            assert(keep(s, qr) == keep(t, qr));
        }
    }
}

/// Filtering by conditions that agree on every element gives the same result.
pub proof fn lemma_keep_same<A>(s: Seq<A>, p: spec_fn(A) -> bool, q: spec_fn(A) -> bool)
    requires
        forall|i: int| 0 <= i < s.len() ==> p(#[trigger] s[i]) == q(s[i]),
    ensures
        keep(s, p) == keep(s, q),
    decreases s.len(),
{
    if s.len() > 0 {
        assert forall|i: int| 0 <= i < s.drop_first().len() implies p(
            #[trigger] s.drop_first()[i],
        ) == q(s.drop_first()[i]) by {
            assert(s.drop_first()[i] == s[i + 1]);
        }
        lemma_keep_same(s.drop_first(), p, q);
    }
}

/// Some element of `s` has key `k`.
pub open spec fn has_key<A, K>(s: Seq<A>, key: spec_fn(A) -> K, k: K) -> bool {
    exists|j: int| 0 <= j < s.len() && key(#[trigger] s[j]) == k
}

/// No two elements of `s` share a key.
pub open spec fn keys_distinct<A, K>(s: Seq<A>, key: spec_fn(A) -> K) -> bool {
    forall|i: int, j: int| 0 <= i < j < s.len() ==> key(#[trigger] s[i]) != key(#[trigger] s[j])
}

/// The first element of each key, in order of first appearance.
pub open spec fn dedupe_by<A, K>(s: Seq<A>, key: spec_fn(A) -> K) -> Seq<A>
    decreases s.len(),
{
    if s.len() == 0 {
        s
    } else if has_key(s.drop_last(), key, key(s.last())) {
        dedupe_by(s.drop_last(), key)
    } else {
        dedupe_by(s.drop_last(), key).push(s.last())
    }
}

proof fn lemma_has_key_push<A, K>(s: Seq<A>, x: A, key: spec_fn(A) -> K, k: K)
    ensures
        has_key(s.push(x), key, k) == (has_key(s, key, k) || key(x) == k),
{
    let sp = s.push(x);
    if has_key(sp, key, k) {
        let j = choose|j: int| 0 <= j < sp.len() && key(sp[j]) == k;
        if j < s.len() {
            assert(s[j] == sp[j]);
        }
    }
    if has_key(s, key, k) {
        let j = choose|j: int| 0 <= j < s.len() && key(s[j]) == k;
        assert(sp[j] == s[j]);
    }
    if key(x) == k {
        assert(sp[s.len() as int] == x);
    }
}

/// Deduplication keeps every key, leaves no key twice and invents no element.
pub proof fn lemma_dedupe_by<A, K>(s: Seq<A>, key: spec_fn(A) -> K)
    ensures
        forall|k: K| has_key(dedupe_by(s, key), key, k) == has_key(s, key, k),
        keys_distinct(dedupe_by(s, key), key),
        forall|i: int|
            0 <= i < dedupe_by(s, key).len() ==> s.contains(#[trigger] dedupe_by(s, key)[i]),
    decreases s.len(),
{
    if s.len() > 0 {
        let t = s.drop_last();
        let x = s.last();
        lemma_dedupe_by(t, key);
        let d = dedupe_by(t, key);
        assert(t.push(x) =~= s);
        if !has_key(t, key, key(x)) {
            let dp = d.push(x);
            assert(dedupe_by(s, key) == dp);
            assert forall|k: K| has_key(dp, key, k) == has_key(s, key, k) by {
                lemma_has_key_push(d, x, key, k);
                lemma_has_key_push(t, x, key, k);
            }
            assert forall|i: int, j: int| 0 <= i < j < dp.len() implies key(#[trigger] dp[i])
                != key(#[trigger] dp[j]) by {
                if j == d.len() {
                    assert(dp[i] == d[i]);
                    if key(d[i]) == key(x) {
                        assert(has_key(d, key, key(x)));
                        assert(has_key(t, key, key(x)));
                    }
                } else {
                    assert(dp[i] == d[i] && dp[j] == d[j]);
                }
            }
            assert forall|i: int| 0 <= i < dp.len() implies s.contains(#[trigger] dp[i]) by {
                if i == d.len() {
                    assert(s[s.len() - 1] == x);
                } else {
                    assert(dp[i] == d[i]);
                    let j = choose|j: int| 0 <= j < t.len() && t[j] == d[i];
                    assert(s[j] == t[j]);
                }
            }
        } else {
            assert(dedupe_by(s, key) == d);
            assert forall|k: K| has_key(d, key, k) == has_key(s, key, k) by {
                lemma_has_key_push(t, x, key, k);
                if k == key(x) {
                    assert(has_key(t, key, k));
                }
            }
            assert forall|i: int| 0 <= i < d.len() implies s.contains(#[trigger] d[i]) by {
                let j = choose|j: int| 0 <= j < t.len() && t[j] == d[i];
                assert(s[j] == t[j]);
            }
        }
    }
}

/// A sequence whose keys are already distinct is its own deduplication.
pub proof fn lemma_dedupe_by_distinct<A, K>(s: Seq<A>, key: spec_fn(A) -> K)
    requires
        keys_distinct(s, key),
    ensures
        dedupe_by(s, key) == s,
    decreases s.len(),
{
    if s.len() > 0 {
        let t = s.drop_last();
        assert forall|i: int, j: int| 0 <= i < j < t.len() implies key(#[trigger] t[i]) != key(
            #[trigger] t[j],
        ) by {
            assert(t[i] == s[i] && t[j] == s[j]);
        }
        lemma_dedupe_by_distinct(t, key);
        if has_key(t, key, key(s.last())) {
            let j = choose|j: int| 0 <= j < t.len() && key(t[j]) == key(s.last());
            assert(t[j] == s[j]);
            assert(s[s.len() - 1] == s.last());
            assert(false);
        }
        assert(t.push(s.last()) =~= s);
    }
}

/// Filtering keeps distinct keys distinct.
pub proof fn lemma_keep_keys_distinct<A, K>(s: Seq<A>, p: spec_fn(A) -> bool, key: spec_fn(A) -> K)
    requires
        keys_distinct(s, key),
    ensures
        keys_distinct(keep(s, p), key),
    decreases s.len(),
{
    if s.len() > 0 {
        let t = s.drop_first();
        assert forall|i: int, j: int| 0 <= i < j < t.len() implies key(#[trigger] t[i]) != key(
            #[trigger] t[j],
        ) by {
            assert(t[i] == s[i + 1] && t[j] == s[j + 1]);
        }
        lemma_keep_keys_distinct(t, p, key);
        lemma_keep_len(t, p);
        let kt = keep(t, p);
        if p(s[0]) {
            let ks = keep(s, p);
            assert(ks == seq![s[0]] + kt);
            assert forall|i: int, j: int| 0 <= i < j < ks.len() implies key(#[trigger] ks[i])
                != key(#[trigger] ks[j]) by {
                assert(ks[j] == kt[j - 1]);
                if i == 0 {
                    assert(ks[0] == s[0]);
                    assert(t.contains(kt[j - 1]));
                    let m = choose|m: int| 0 <= m < t.len() && t[m] == kt[j - 1];
                    assert(s[m + 1] == t[m]);
                } else {
                    assert(ks[i] == kt[i - 1]);
                }
            }
        }
    }
}

/// When every element of key `k` passes `p`, filtering by `p` keeps key `k`.
pub proof fn lemma_keep_has_key<A, K>(s: Seq<A>, p: spec_fn(A) -> bool, key: spec_fn(A) -> K, k: K)
    requires
        forall|x: A| #[trigger] key(x) == k ==> p(x),
    ensures
        has_key(keep(s, p), key, k) == has_key(s, key, k),
    decreases s.len(),
{
    if s.len() > 0 {
        let t = s.drop_first();
        lemma_keep_has_key(t, p, key, k);
        assert(seq![s[0]] + t =~= s);
        let kt = keep(t, p);
        if has_key(s, key, k) {
            let j = choose|j: int| 0 <= j < s.len() && key(s[j]) == k;
            if j > 0 {
                assert(t[j - 1] == s[j]);
            }
        }
        if has_key(t, key, k) {
            let j = choose|j: int| 0 <= j < t.len() && key(t[j]) == k;
            assert(s[j + 1] == t[j]);
        }
        if p(s[0]) {
            let ks = keep(s, p);
            assert(ks == seq![s[0]] + kt);
            if has_key(ks, key, k) {
                let j = choose|j: int| 0 <= j < ks.len() && key(ks[j]) == k;
                if j > 0 {
                    assert(kt[j - 1] == ks[j]);
                } else {
                    assert(ks[0] == s[0]);
                }
            }
            if has_key(kt, key, k) {
                let j = choose|j: int| 0 <= j < kt.len() && key(kt[j]) == k;
                assert(ks[j + 1] == kt[j]);
            }
            if key(s[0]) == k {
                assert(ks[0] == s[0]);
            }
        }
    }
}

} // verus!
