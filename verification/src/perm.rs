//! Facts about sequences that are rearrangements of one another, stated
//! through their multisets.

use vstd::prelude::*;
use vstd::multiset::Multiset;

verus! {

/// Mapping two rearrangements of the same elements through one function
/// gives two rearrangements of the same images.
pub proof fn lemma_map_permutation<A, B>(a: Seq<A>, b: Seq<A>, f: spec_fn(A) -> B)
    requires
        a.to_multiset() == b.to_multiset(),
    ensures
        a.map_values(f).to_multiset() == b.map_values(f).to_multiset(),
    decreases a.len(),
{
    a.to_multiset_ensures();
    b.to_multiset_ensures();
    if a.len() == 0 {
        assert(a.map_values(f) =~= b.map_values(f));
    } else {
        let x = a.last();
        let front = a.drop_last();
        assert(a =~= front.push(x));
        front.to_multiset_ensures();
        assert(a.to_multiset().count(x) > 0);
        assert(b.contains(x));
        let i = choose|i: int| 0 <= i < b.len() && b[i] == x;
        let rest = b.remove(i);
        assert(front.to_multiset() =~= a.to_multiset().remove(x));
        assert(rest.to_multiset() =~= b.to_multiset().remove(x));
        lemma_map_permutation(front, rest, f);
        let fa = a.map_values(f);
        let fb = b.map_values(f);
        assert(fa =~= front.map_values(f).push(f(x)));
        assert(rest.map_values(f) =~= fb.remove(i));
        front.map_values(f).to_multiset_ensures();
        fb.to_multiset_ensures();
        assert(fb[i] == f(x));
        assert(fb.to_multiset().count(f(x)) > 0);
        assert(fa.to_multiset() =~= fb.to_multiset().remove(f(x)).insert(f(x)));
        assert(fa.to_multiset() =~= fb.to_multiset());
    }
}

/// A rearrangement of a sequence without repeated elements has none either.
pub proof fn lemma_permutation_no_duplicates<A>(a: Seq<A>, b: Seq<A>)
    requires
        a.to_multiset() == b.to_multiset(),
        a.no_duplicates(),
    ensures
        b.no_duplicates(),
{
    a.lemma_multiset_has_no_duplicates();
    b.lemma_multiset_has_no_duplicates_conv();
}

/// Rearrangements hold the same elements and are equally long.
pub proof fn lemma_permutation_contains<A>(a: Seq<A>, b: Seq<A>)
    requires
        a.to_multiset() == b.to_multiset(),
    ensures
        a.len() == b.len(),
        forall|x: A|
            #![trigger a.contains(x)]
            #![trigger b.contains(x)]
            a.contains(x) == b.contains(x),
{
    a.to_multiset_ensures();
    b.to_multiset_ensures();
    assert forall|x: A|
        #![trigger a.contains(x)]
        #![trigger b.contains(x)]
        a.contains(x) == b.contains(x) by {
        assert(a.contains(x) <==> a.to_multiset().count(x) > 0);
        assert(b.contains(x) <==> b.to_multiset().count(x) > 0);
    }
}

/// The elements that satisfy `p` are as many as `true` occurs among the
/// values of `p` on the sequence.
proof fn lemma_filter_len_as_count<A>(s: Seq<A>, p: spec_fn(A) -> bool)
    ensures
        s.filter(p).len() == s.map_values(p).to_multiset().count(true),
    decreases s.len(),
{
    broadcast use vstd::multiset::group_multiset_axioms;

    if s.len() == 0 {
        s.lemma_filter_len(p);
        s.map_values(p).to_multiset_ensures();
        assert(s.map_values(p).to_multiset().len() == 0);
    } else {
        let front = s.drop_last();
        let x = s.last();
        assert(s =~= front.push(x));
        lemma_filter_len_as_count(front, p);
        front.lemma_filter_len_push(p, x);
        assert(s.map_values(p) =~= front.map_values(p).push(p(x)));
        front.map_values(p).to_multiset_ensures();
    }
}

/// Rearrangements hold equally many elements that satisfy `p`.
pub proof fn lemma_filter_len_permutation<A>(a: Seq<A>, b: Seq<A>, p: spec_fn(A) -> bool)
    requires
        a.to_multiset() == b.to_multiset(),
    ensures
        a.filter(p).len() == b.filter(p).len(),
{
    lemma_filter_len_as_count(a, p);
    lemma_filter_len_as_count(b, p);
    lemma_map_permutation(a, b, p);
}

/// Where `p` has the same value on every element, the filter keeps all of
/// them or none.
pub proof fn lemma_filter_len_uniform<A>(s: Seq<A>, p: spec_fn(A) -> bool, value: bool)
    requires
        forall|i: int| 0 <= i < s.len() ==> p(#[trigger] s[i]) == value,
    ensures
        s.filter(p).len() == if value { s.len() } else { 0 },
    decreases s.len(),
{
    if s.len() == 0 {
        s.lemma_filter_len(p);
    } else {
        let front = s.drop_last();
        assert(s =~= front.push(s.last()));
        lemma_filter_len_uniform(front, p, value);
        front.lemma_filter_len_push(p, s.last());
    }
}

/// Filtering after adding an element adds the element to the filtered
/// multiset where it passes the test, and changes nothing where it fails.
pub proof fn lemma_filter_insert<V>(m: Multiset<V>, p: spec_fn(V) -> bool, x: V)
    ensures
        m.insert(x).filter(p) == if p(x) {
            m.filter(p).insert(x)
        } else {
            m.filter(p)
        },
        m.insert(x).filter(p).len() == m.filter(p).len() + if p(x) {
            1nat
        } else {
            0nat
        },
{
    broadcast use vstd::multiset::group_multiset_axioms;

    if p(x) {
        assert(m.insert(x).filter(p) =~= m.filter(p).insert(x));
    } else {
        assert(m.insert(x).filter(p) =~= m.filter(p));
    }
}

/// A filter keeps as many elements as there are exactly when every
/// element passes the test.
pub proof fn lemma_filter_whole<V>(m: Multiset<V>, p: spec_fn(V) -> bool)
    ensures
        m.filter(p).len() <= m.len(),
        m.filter(p).len() == m.len() <==> (forall|v: V| m.contains(v) ==> p(v)),
{
    broadcast use vstd::multiset::group_multiset_axioms;

    let kept = m.filter(p);
    assert(kept.subset_of(m));
    assert(m.sub(kept).len() == m.len() - kept.len());
    if forall|v: V| m.contains(v) ==> p(v) {
        assert forall|v: V| kept.count(v) == m.count(v) by {
            if m.count(v) > 0 {
                assert(m.contains(v));
            }
        }
        assert(kept =~= m);
    }
    if kept.len() == m.len() {
        assert forall|v: V| m.contains(v) implies p(v) by {
            if !p(v) {
                let fewer = m.remove(v);
                assert(Multiset::singleton(v).subset_of(m));
                assert(kept.subset_of(fewer));
                assert(fewer.sub(kept).len() == fewer.len() - kept.len());
            }
        }
    }
}

} // verus!
