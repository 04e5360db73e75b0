//! Stable insertion sort over a "strictly goes before" relation. Every
//! ranking in the crate (points descending, names and dates ascending) is
//! a stable sort, so ties keep the order in which they were produced.
use vstd::prelude::*;

verus! {

/// An element type with a strict "goes before" relation used for sorting.
pub trait Precedes: Sized {
    /// `self` must be placed strictly before `other`.
    spec fn precedes(&self, other: &Self) -> bool;

    /// Executable form of [`Precedes::precedes`].
    fn precedes_exec(&self, other: &Self) -> (r: bool)
        ensures
            r == self.precedes(other),
    ;
}

/// Inserts `x` into `s` after every element that `x` does not strictly
/// precede: at the first position whose element `x` precedes.
pub open spec fn insert_sorted<T: Precedes>(s: Seq<T>, x: T) -> Seq<T>
    decreases s.len(),
{
    if s.len() == 0 {
        seq![x]
    } else if x.precedes(&s[0]) {
        seq![x] + s
    } else {
        seq![s[0]] + insert_sorted(s.drop_first(), x)
    }
}

/// The stable sort of `s`: each element in turn is inserted after the
/// earlier ones it does not strictly precede.
pub open spec fn stable_sorted<T: Precedes>(s: Seq<T>) -> Seq<T>
    decreases s.len(),
{
    if s.len() == 0 {
        s
    } else {
        insert_sorted(stable_sorted(s.drop_last()), s.last())
    }
}

/// No element strictly precedes an element placed before it.
pub open spec fn is_sorted_by<T: Precedes>(s: Seq<T>) -> bool {
    forall|i: int, j: int| 0 <= i < j < s.len() ==> !#[trigger] s[j].precedes(&#[trigger] s[i])
}

/// `precedes` is a strict partial order on the given sequence's values.
pub open spec fn strict_order<T: Precedes>() -> bool {
    &&& forall|a: T| !#[trigger] a.precedes(&a)
    &&& forall|a: T, b: T, c: T| #[trigger] a.precedes(&b) && #[trigger] b.precedes(&c) ==> a.precedes(&c)
}

proof fn lemma_insert_at<T: Precedes>(s: Seq<T>, x: T, j: int)
    requires
        0 <= j <= s.len(),
        forall|k: int| 0 <= k < j ==> !x.precedes(&#[trigger] s[k]),
        j == s.len() || x.precedes(&s[j]),
    ensures
        insert_sorted(s, x) == s.insert(j, x),
    decreases j,
{
    if j == 0 {
        if s.len() == 0 {
            assert(s.insert(0, x) =~= seq![x]);
        } else {
            assert(s.insert(0, x) =~= seq![x] + s);
        }
    } else {
        let t = s.drop_first();
        assert(!x.precedes(&s[0]));
        assert forall|k: int| 0 <= k < j - 1 implies !x.precedes(&#[trigger] t[k]) by {
            assert(t[k] == s[k + 1]);
        }
        if j < s.len() {
            assert(t[j - 1] == s[j]);
        }
        lemma_insert_at(t, x, j - 1);
        assert(s.insert(j, x) =~= seq![s[0]] + t.insert(j - 1, x));
    }
}

/// Inserting keeps exactly the old elements plus the new one.
pub proof fn lemma_insert_sorted_multiset<T: Precedes>(s: Seq<T>, x: T)
    ensures
        insert_sorted(s, x).to_multiset() == s.to_multiset().insert(x),
    decreases s.len(),
{
    broadcast use vstd::seq_lib::group_to_multiset_ensures;

    if s.len() == 0 {
        assert(insert_sorted(s, x) =~= s.insert(0, x));
    } else if x.precedes(&s[0]) {
        assert(insert_sorted(s, x) =~= s.insert(0, x));
    } else {
        let t = s.drop_first();
        lemma_insert_sorted_multiset(t, x);
        let r = insert_sorted(t, x);
        assert(insert_sorted(s, x) =~= r.insert(0, s[0]));
        assert(s =~= t.insert(0, s[0]));
        assert(insert_sorted(s, x).to_multiset() =~= s.to_multiset().insert(x));
    }
}

/// The stable sort is a permutation of its input.
pub proof fn lemma_stable_sorted_multiset<T: Precedes>(s: Seq<T>)
    ensures
        stable_sorted(s).to_multiset() == s.to_multiset(),
        stable_sorted(s).len() == s.len(),
    decreases s.len(),
{
    broadcast use vstd::seq_lib::group_to_multiset_ensures;

    if s.len() > 0 {
        lemma_stable_sorted_multiset(s.drop_last());
        lemma_insert_sorted_multiset(stable_sorted(s.drop_last()), s.last());
        assert(s =~= s.drop_last().push(s.last()));
    }
    assert(stable_sorted(s).to_multiset().len() == stable_sorted(s).len());
}

proof fn lemma_insert_sorted_sorted<T: Precedes>(s: Seq<T>, x: T)
    requires
        strict_order::<T>(),
        is_sorted_by(s),
    ensures
        is_sorted_by(insert_sorted(s, x)),
    decreases s.len(),
{
    if s.len() == 0 {
    } else if x.precedes(&s[0]) {
        let r = seq![x] + s;
        assert(r =~= insert_sorted(s, x));
        assert forall|i: int, j: int| 0 <= i < j < r.len() implies !#[trigger] r[j].precedes(
            &#[trigger] r[i],
        ) by {
            if i == 0 {
                assert(r[j] == s[j - 1]);
                if j - 1 > 0 {
                    assert(!s[j - 1].precedes(&s[0]));
                }
                if s[j - 1].precedes(&x) {
                    assert(s[j - 1].precedes(&s[0]));
                }
            } else {
                assert(r[i] == s[i - 1]);
                assert(r[j] == s[j - 1]);
            }
        }
    } else {
        let t = s.drop_first();
        assert(is_sorted_by(t)) by {
            assert forall|i: int, j: int| 0 <= i < j < t.len() implies !#[trigger] t[j].precedes(
                &#[trigger] t[i],
            ) by {
                assert(t[i] == s[i + 1]);
                assert(t[j] == s[j + 1]);
            }
        }
        lemma_insert_sorted_sorted(t, x);
        let it = insert_sorted(t, x);
        lemma_insert_sorted_multiset(t, x);
        let r = seq![s[0]] + it;
        assert(r =~= insert_sorted(s, x));
        assert forall|i: int, j: int| 0 <= i < j < r.len() implies !#[trigger] r[j].precedes(
            &#[trigger] r[i],
        ) by {
            if i == 0 {
                let e = it[j - 1];
                assert(r[j] == e);
                assert(it.to_multiset().count(e) > 0) by {
                    broadcast use vstd::seq_lib::group_to_multiset_ensures;

                    assert(it.contains(e)) by {
                        assert(it[j - 1] == e);
                    }
                }
                assert(t.to_multiset().insert(x).count(e) > 0);
                if e == x {
                } else {
                    assert(t.to_multiset().count(e) > 0);
                    assert(t.contains(e)) by {
                        broadcast use vstd::seq_lib::group_to_multiset_ensures;

                    }
                    let k = choose|k: int| 0 <= k < t.len() && t[k] == e;
                    assert(s[k + 1] == e);
                }
            } else {
                assert(r[i] == it[i - 1]);
                assert(r[j] == it[j - 1]);
            }
        }
    }
}

/// The stable sort orders its output: no element strictly precedes one
/// placed before it.
pub proof fn lemma_stable_sorted_sorted<T: Precedes>(s: Seq<T>)
    requires
        strict_order::<T>(),
    ensures
        is_sorted_by(stable_sorted(s)),
    decreases s.len(),
{
    if s.len() > 0 {
        lemma_stable_sorted_sorted(s.drop_last());
        lemma_insert_sorted_sorted(stable_sorted(s.drop_last()), s.last());
    }
}

/// An element occurs in the stable sort exactly where it occurs in the
/// input.
pub proof fn lemma_stable_sorted_contains<T: Precedes>(s: Seq<T>, x: T)
    ensures
        stable_sorted(s).contains(x) == s.contains(x),
{
    broadcast use vstd::seq_lib::group_to_multiset_ensures;

    lemma_stable_sorted_multiset(s);
    assert(stable_sorted(s).to_multiset().count(x) == s.to_multiset().count(x));
}

/// Stable sort of `v` by [`Precedes::precedes`].
pub fn stable_sort<T: Precedes>(v: Vec<T>) -> (r: Vec<T>)
    ensures
        r@ == stable_sorted(v@),
{
    let ghost orig = v@;
    let mut rest = v;
    let mut out: Vec<T> = Vec::new();
    let n = rest.len();
    let mut i: usize = 0;
    assert(orig.take(0) =~= Seq::<T>::empty());
    while i < n
        invariant
            n == orig.len(),
            i <= n,
            rest@ =~= orig.skip(i as int),
            out@ == stable_sorted(orig.take(i as int)),
        decreases n - i,
    {
        let x = rest.remove(0);
        assert(x == orig[i as int]);
        let mut j: usize = 0;
        while j < out.len() && !x.precedes_exec(&out[j])
            invariant
                j <= out.len(),
                forall|k: int| 0 <= k < j ==> !x.precedes(&#[trigger] out@[k]),
            decreases out.len() - j,
        {
            j = j + 1;
        }
        proof {
            lemma_insert_at(out@, x, j as int);
            let p = orig.take(i + 1);
            assert(p.drop_last() =~= orig.take(i as int));
            assert(p.last() == x);
        }
        out.insert(j, x);
        i = i + 1;
    }
    assert(orig.take(n as int) =~= orig);
    out
}

} // verus!
