//! Stable ordering by a numeric key, largest first: the order in which
//! artefacts, groups and trash sessions are listed.

use vstd::prelude::*;

verus! {

broadcast use vstd::seq_lib::group_seq_properties;

/// A value that is listed by a numeric key.
pub trait Keyed: Sized {
    /// The key by which the value is ordered.
    spec fn sort_key(&self) -> u64;

    /// Computes the key.
    fn key(&self) -> (k: u64)
        ensures
            k == self.sort_key(),
    ;
}

/// No element is listed before one with a larger key.
pub open spec fn sorted_desc<T: Keyed>(s: Seq<T>) -> bool {
    forall|i: int, j: int| 0 <= i < j < s.len() ==> s[i].sort_key() >= s[j].sort_key()
}

/// The elements of `s` whose key is `k`, in their order in `s`.
pub open spec fn with_key<T: Keyed>(s: Seq<T>, k: u64) -> Seq<T> {
    s.filter(|x: T| x.sort_key() == k)
}

/// `r` is `s` ordered by key, largest first, where elements of equal key
/// keep the order they have in `s`.
pub open spec fn stable_desc_of<T: Keyed>(r: Seq<T>, s: Seq<T>) -> bool {
    &&& sorted_desc(r)
    &&& forall|k: u64| #[trigger] with_key(r, k) == with_key(s, k)
}

proof fn lemma_with_key_none<T: Keyed>(s: Seq<T>, k: u64)
    requires
        forall|i: int| 0 <= i < s.len() ==> s[i].sort_key() != k,
    ensures
        with_key(s, k) == Seq::<T>::empty(),
    decreases s.len(),
{
    reveal(Seq::filter);
    if s.len() > 0 {
        lemma_with_key_none(s.drop_last(), k);
    }
    assert(with_key(s, k) =~= Seq::<T>::empty());
}

proof fn lemma_with_key_push<T: Keyed>(s: Seq<T>, x: T, k: u64)
    ensures
        with_key(s.push(x), k) == if x.sort_key() == k {
            with_key(s, k).push(x)
        } else {
            with_key(s, k)
        },
{
    reveal(Seq::filter);
    assert(s.push(x).drop_last() == s);
}

proof fn lemma_with_key_insert<T: Keyed>(out: Seq<T>, p: int, x: T, k: u64)
    requires
        0 <= p <= out.len(),
        forall|i: int| p <= i < out.len() ==> out[i].sort_key() < x.sort_key(),
    ensures
        with_key(out.insert(p, x), k) == if x.sort_key() == k {
            with_key(out, k).push(x)
        } else {
            with_key(out, k)
        },
{
    reveal(Seq::filter);
    let pred = |y: T| y.sort_key() == k;
    let a = out.subrange(0, p);
    let b = out.subrange(p, out.len() as int);
    assert(out == a + b);
    assert(out.insert(p, x) == a.push(x) + b);
    Seq::filter_distributes_over_add(a, b, pred);
    Seq::filter_distributes_over_add(a.push(x), b, pred);
    assert(a.push(x).drop_last() == a);
    if x.sort_key() == k {
        lemma_with_key_none(b, k);
        assert(a.push(x).filter(pred) == a.filter(pred).push(x));
    } else {
        assert(a.push(x).filter(pred) == a.filter(pred));
    }
}

/// Orders `v` by key, largest first; elements of equal key keep their order.
pub fn sort_desc_stable<T: Keyed>(v: Vec<T>) -> (r: Vec<T>)
    ensures
        stable_desc_of(r@, v@),
        r@.len() == v@.len(),
{
    let ghost orig = v@;
    let mut rest = v;
    let mut out: Vec<T> = Vec::new();
    let mut i: usize = 0;
    let n = rest.len();
    while i < n
        invariant
            n == orig.len(),
            i <= n,
            rest@ == orig.subrange(i as int, n as int),
            out@.len() == i,
            sorted_desc(out@),
            forall|k: u64| #[trigger] with_key(out@, k) == with_key(orig.subrange(0, i as int), k),
        decreases n - i,
    {
        let x = rest.remove(0);
        let kx = x.key();
        let mut p: usize = 0;
        while p < out.len() && out[p].key() >= kx
            invariant
                p <= out@.len(),
                forall|j: int| 0 <= j < p ==> out@[j].sort_key() >= kx,
            decreases out@.len() - p,
        {
            p = p + 1;
        }
        let ghost before = out@;
        proof {
            assert forall|j: int| p <= j < before.len() implies before[j].sort_key() < x.sort_key() by {
                if p < before.len() {
                    assert(before[p as int].sort_key() < kx);
                }
            }
            assert forall|k: u64| #[trigger] with_key(before.insert(p as int, x), k) == with_key(
                orig.subrange(0, i + 1),
                k,
            ) by {
                lemma_with_key_insert(before, p as int, x, k);
                let pre = orig.subrange(0, i as int);
                assert(orig.subrange(0, i + 1) == pre.push(x));
                assert(with_key(before, k) == with_key(pre, k));
                lemma_with_key_push(pre, x, k);
            }
        }
        out.insert(p, x);
        i = i + 1;
    }
    proof {
        assert(orig.subrange(0, n as int) == orig);
    }
    out
}


/// How often `x` occurs in `s`.
pub open spec fn occurrences<T>(s: Seq<T>, x: T) -> nat {
    s.filter(|y: T| y == x).len()
}

proof fn lemma_with_key_occurrences<T: Keyed>(s: Seq<T>, x: T)
    ensures
        occurrences(with_key(s, x.sort_key()), x) == occurrences(s, x),
    decreases s.len(),
{
    reveal(Seq::filter);
    if s.len() > 0 {
        let d = s.drop_last();
        lemma_with_key_occurrences(d, x);
        lemma_with_key_push(d, s.last(), x.sort_key());
        assert(d.push(s.last()) == s);
        let wd = with_key(d, x.sort_key());
        if s.last().sort_key() == x.sort_key() {
            assert(wd.push(s.last()).drop_last() == wd);
        }
    }
}

proof fn lemma_occurrences_multiset<T>(s: Seq<T>, x: T)
    ensures
        s.to_multiset().count(x) == occurrences(s, x),
    decreases s.len(),
{
    broadcast use vstd::seq_lib::group_to_multiset_ensures;
    reveal(Seq::filter);
    if s.len() == 0 {
        assert(s.to_multiset() =~= vstd::multiset::Multiset::empty());
    } else {
        let d = s.drop_last();
        lemma_occurrences_multiset(d, x);
        assert(d.push(s.last()) == s);
        assert(s.to_multiset() =~= d.to_multiset().insert(s.last()));
    }
}

/// Ordering rearranges: the ordered sequence holds every element exactly as
/// often as the sequence it was made from.
pub proof fn law_ordering_is_permutation<T: Keyed>(r: Seq<T>, s: Seq<T>)
    requires
        stable_desc_of(r, s),
    ensures
        r.to_multiset() =~= s.to_multiset(),
{
    assert forall|x: T| #[trigger] r.to_multiset().count(x) == s.to_multiset().count(x) by {
        let k = x.sort_key();
        lemma_with_key_occurrences(r, x);
        lemma_with_key_occurrences(s, x);
        assert(with_key(r, k) == with_key(s, k));
        lemma_occurrences_multiset(r, x);
        lemma_occurrences_multiset(s, x);
    }
}


proof fn lemma_with_key_member<T: Keyed>(s: Seq<T>, k: u64, x: T)
    requires
        with_key(s, k).contains(x),
    ensures
        s.contains(x),
        x.sort_key() == k,
    decreases s.len(),
{
    reveal(Seq::filter);
    if s.len() > 0 {
        let d = s.drop_last();
        if with_key(d, k).contains(x) {
            lemma_with_key_member(d, k, x);
            let i = choose|i: int| 0 <= i < d.len() && d[i] == x;
            assert(s[i] == x);
        } else {
            lemma_with_key_push(d, s.last(), k);
            assert(d.push(s.last()) == s);
            let w = with_key(d, k);
            let j = choose|j: int| 0 <= j < with_key(s, k).len() && with_key(s, k)[j] == x;
            if s.last().sort_key() == k {
                if j < w.len() {
                    assert(w[j] == x);
                }
                assert(x == s.last());
                assert(s[s.len() - 1] == x);
            } else {
                assert(w[j] == x);
            }
        }
    }
}

proof fn lemma_in_with_key<T: Keyed>(s: Seq<T>, i: int)
    requires
        0 <= i < s.len(),
    ensures
        with_key(s, s[i].sort_key()).contains(s[i]),
{
    s.lemma_filter_contains(|x: T| x.sort_key() == s[i].sort_key(), i);
}

proof fn lemma_with_key_prepend<T: Keyed>(x: T, rest: Seq<T>, k: u64)
    ensures
        with_key(seq![x] + rest, k) == if x.sort_key() == k {
            seq![x] + with_key(rest, k)
        } else {
            with_key(rest, k)
        },
    decreases rest.len(),
{
    if rest.len() == 0 {
        reveal(Seq::filter);
        assert(seq![x] + rest == seq![x]);
        assert(seq![x].drop_last() == Seq::<T>::empty());
        lemma_with_key_push(Seq::<T>::empty(), x, k);
        assert(Seq::<T>::empty().push(x) == seq![x]);
        lemma_with_key_none(Seq::<T>::empty(), k);
        assert(with_key(rest, k) == Seq::<T>::empty());
        assert(seq![x] + Seq::<T>::empty() == seq![x]);
        assert(Seq::<T>::empty().push(x) == seq![x]);
    } else {
        let d = rest.drop_last();
        lemma_with_key_prepend(x, d, k);
        assert((seq![x] + d).push(rest.last()) == seq![x] + rest);
        assert(d.push(rest.last()) == rest);
        lemma_with_key_push(seq![x] + d, rest.last(), k);
        lemma_with_key_push(d, rest.last(), k);
        if x.sort_key() == k {
            assert((seq![x] + with_key(d, k)).push(rest.last()) == seq![x] + with_key(d, k).push(rest.last()));
        }
    }
}

proof fn lemma_same_keys_same_order<T: Keyed>(r1: Seq<T>, r2: Seq<T>)
    requires
        sorted_desc(r1),
        sorted_desc(r2),
        forall|k: u64| #[trigger] with_key(r1, k) == with_key(r2, k),
    ensures
        r1 == r2,
    decreases r1.len() + r2.len(),
{
    if r1.len() == 0 && r2.len() == 0 {
        assert(r1 =~= r2);
    } else if r1.len() == 0 {
        lemma_in_with_key(r2, 0);
        lemma_with_key_member(r1, r2[0].sort_key(), r2[0]);
    } else if r2.len() == 0 {
        lemma_in_with_key(r1, 0);
        lemma_with_key_member(r2, r1[0].sort_key(), r1[0]);
    } else {
        let x1 = r1[0];
        let x2 = r2[0];
        lemma_in_with_key(r1, 0);
        assert(with_key(r1, x1.sort_key()) == with_key(r2, x1.sort_key()));
        lemma_with_key_member(r2, x1.sort_key(), x1);
        lemma_in_with_key(r2, 0);
        assert(with_key(r2, x2.sort_key()) == with_key(r1, x2.sort_key()));
        lemma_with_key_member(r1, x2.sort_key(), x2);
        let i2 = choose|i: int| 0 <= i < r2.len() && r2[i] == x1;
        let i1 = choose|i: int| 0 <= i < r1.len() && r1[i] == x2;
        assert(x2.sort_key() >= x1.sort_key()) by {
            if i2 > 0 {
                assert(r2[0].sort_key() >= r2[i2].sort_key());
            }
        }
        assert(x1.sort_key() >= x2.sort_key()) by {
            if i1 > 0 {
                assert(r1[0].sort_key() >= r1[i1].sort_key());
            }
        }
        let k = x1.sort_key();
        let t1 = r1.drop_first();
        let t2 = r2.drop_first();
        assert(r1 == seq![x1] + t1);
        assert(r2 == seq![x2] + t2);
        lemma_with_key_prepend(x1, t1, k);
        lemma_with_key_prepend(x2, t2, k);
        assert((seq![x1] + with_key(t1, k))[0] == x1);
        assert((seq![x2] + with_key(t2, k))[0] == x2);
        assert(x1 == x2);
        assert forall|kk: u64| #[trigger] with_key(t1, kk) == with_key(t2, kk) by {
            lemma_with_key_prepend(x1, t1, kk);
            lemma_with_key_prepend(x2, t2, kk);
            if kk == k {
                assert(with_key(t1, kk) == (seq![x1] + with_key(t1, kk)).drop_first());
                assert(with_key(t2, kk) == (seq![x2] + with_key(t2, kk)).drop_first());
            }
        }
        assert(sorted_desc(t1)) by {
            assert forall|i: int, j: int| 0 <= i < j < t1.len() implies t1[i].sort_key() >= t1[j].sort_key() by {
                assert(t1[i] == r1[i + 1] && t1[j] == r1[j + 1]);
            }
        }
        assert(sorted_desc(t2)) by {
            assert forall|i: int, j: int| 0 <= i < j < t2.len() implies t2[i].sort_key() >= t2[j].sort_key() by {
                assert(t2[i] == r2[i + 1] && t2[j] == r2[j + 1]);
            }
        }
        lemma_same_keys_same_order(t1, t2);
    }
}

/// The listing order is fully determined: two orderings of the same
/// sequence, each largest first and stable, are the same.
pub proof fn law_ordering_is_unique<T: Keyed>(r1: Seq<T>, r2: Seq<T>, s: Seq<T>)
    requires
        stable_desc_of(r1, s),
        stable_desc_of(r2, s),
    ensures
        r1 == r2,
{
    assert forall|k: u64| #[trigger] with_key(r1, k) == with_key(r2, k) by {
        assert(with_key(r1, k) == with_key(s, k));
        assert(with_key(r2, k) == with_key(s, k));
    }
    lemma_same_keys_same_order(r1, r2);
}

} // verus!
