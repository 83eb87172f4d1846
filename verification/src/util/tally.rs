//! Totals of collections of sequences.

use vstd::multiset::Multiset;
use vstd::prelude::*;
use vstd::seq_lib::lemma_multiset_commutative;

verus! {

/// All items of a collection of sequences, irrespective of their order.
pub open spec fn total<T>(s: Seq<Seq<T>>) -> Multiset<T>
    decreases s.len(),
{
    if s.len() == 0 {
        Multiset::empty()
    } else {
        total(s.drop_last()).add(s.last().to_multiset())
    }
}

/// The items of a collection are those of its sequences.
pub proof fn law_total<T>(s: Seq<Seq<T>>, item: T)
    ensures
        total(s).count(item) > 0 <==> exists|i: int|
            0 <= i < s.len() && (#[trigger] s[i]).contains(item),
    decreases s.len(),
{
    broadcast use vstd::multiset::group_multiset_axioms;

    if s.len() > 0 {
        let rest = s.drop_last();
        law_total(rest, item);
        s.last().to_multiset_ensures();
        if total(rest).count(item) > 0 {
            let i = choose|i: int| 0 <= i < rest.len() && (#[trigger] rest[i]).contains(item);
            assert(s[i].contains(item));
        }
        if s.last().contains(item) {
            assert(s[s.len() - 1].contains(item));
        }
        if exists|i: int| 0 <= i < s.len() && (#[trigger] s[i]).contains(item) {
            let i = choose|i: int| 0 <= i < s.len() && (#[trigger] s[i]).contains(item);
            if i < rest.len() {
                assert(rest[i].contains(item));
            }
        }
    }
}

/// Adding a sequence adds its items.
pub proof fn lemma_total_push<T>(s: Seq<Seq<T>>, x: Seq<T>)
    ensures
        total(s.push(x)) == total(s).add(x.to_multiset()),
{
    assert(s.push(x).drop_last() =~= s);
}

/// Replacing a sequence replaces its items.
pub proof fn lemma_total_update<T>(s: Seq<Seq<T>>, i: int, x: Seq<T>)
    requires
        0 <= i < s.len(),
    ensures
        total(s.update(i, x)).add(s[i].to_multiset()) == total(s).add(x.to_multiset()),
    decreases s.len(),
{
    broadcast use vstd::multiset::group_multiset_axioms;

    let t = s.update(i, x);
    if i == s.len() - 1 {
        assert(t.drop_last() =~= s.drop_last());
        assert(total(t).add(s[i].to_multiset()) =~= total(s).add(x.to_multiset()));
    } else {
        lemma_total_update(s.drop_last(), i, x);
        assert(t.drop_last() =~= s.drop_last().update(i, x));
        assert(t.last() == s.last());
        assert(total(t).add(s[i].to_multiset()) =~= total(t.drop_last()).add(
            s[i].to_multiset(),
        ).add(s.last().to_multiset()));
        assert(total(s).add(x.to_multiset()) =~= total(s.drop_last()).add(x.to_multiset()).add(
            s.last().to_multiset(),
        ));
    }
}

/// Appending an item adds it.
pub proof fn lemma_multiset_push<T>(s: Seq<T>, x: T)
    ensures
        s.push(x).to_multiset() == s.to_multiset().insert(x),
{
    s.to_multiset_ensures();
}

/// A sequence has the items of its two parts.
pub proof fn lemma_multiset_split<T>(s: Seq<T>, at: int)
    requires
        0 <= at <= s.len(),
    ensures
        s.to_multiset() == s.take(at).to_multiset().add(s.skip(at).to_multiset()),
{
    lemma_multiset_commutative(s.take(at), s.skip(at));
    assert(s.take(at) + s.skip(at) =~= s);
}

/// Collections that are equal with some more items are equal without them.
pub proof fn lemma_cancel<T>(a: Multiset<T>, b: Multiset<T>, c: Multiset<T>)
    requires
        a.add(c) =~= b.add(c),
    ensures
        a == b,
{
    broadcast use vstd::multiset::group_multiset_axioms;

    assert forall|x: T| a.count(x) == b.count(x) by {
        assert(a.add(c).count(x) == b.add(c).count(x));
    }
    assert(a =~= b);
}

} // verus!
