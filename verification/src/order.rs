//! Values with a numeric rank, and sequences of them in ascending rank.
use crate::sequences::lemma_push_contains;
use std::collections::HashMap;
use vstd::prelude::*;
use vstd::relations::sorted_by;
use vstd::relations::total_ordering;

verus! {

broadcast use vstd::std_specs::hash::group_hash_axioms;

/// A value that a number stands for: values of equal rank are equal.
pub trait Ranked: Copy {
    spec fn rank(self) -> int;

    fn rank_value(&self) -> (r: u64)
        ensures
            r == self.rank(),
    ;

    proof fn rank_identifies(a: Self, b: Self)
        requires
            a.rank() == b.rank(),
        ensures
            a == b,
    ;
}

impl Ranked for u64 {
    open spec fn rank(self) -> int {
        self as int
    }

    fn rank_value(&self) -> (r: u64) {
        *self
    }

    proof fn rank_identifies(a: Self, b: Self) {
    }
}

/// The order of ranks.
pub open spec fn rank_order<T: Ranked>() -> spec_fn(T, T) -> bool {
    |a: T, b: T| a.rank() <= b.rank()
}

/// `s` in ascending rank, with its repetitions.
pub open spec fn sorted<T: Ranked>(s: Seq<T>) -> Seq<T> {
    s.sort_by(rank_order::<T>())
}

/// `s` has no repetition and its ranks ascend.
pub open spec fn ascends<T: Ranked>(s: Seq<T>) -> bool {
    forall|i: int, j: int| 0 <= i < j < s.len() ==> (#[trigger] s[i]).rank() < (#[trigger] s[j]).rank()
}

/// The ranks of `s` do not descend.
pub open spec fn in_order<T: Ranked>(s: Seq<T>) -> bool {
    forall|i: int, j: int|
        0 <= i < j < s.len() ==> (#[trigger] s[i]).rank() <= (#[trigger] s[j]).rank()
}

/// `s` holds the members of `set`, each once, in ascending rank.
pub open spec fn lists<T: Ranked>(s: Seq<T>, set: Set<T>) -> bool {
    ascends(s) && s.to_set() == set
}

/// The members of `set` in ascending rank.
pub open spec fn listing<T: Ranked>(set: Set<T>) -> Seq<T> {
    choose|s: Seq<T>| lists(s, set)
}

pub proof fn lemma_rank_order_total<T: Ranked>()
    ensures
        total_ordering(rank_order::<T>()),
{
    let leq = rank_order::<T>();
    assert forall|x: T, y: T| #[trigger] leq(x, y) && #[trigger] leq(y, x) implies x == y by {
        T::rank_identifies(x, y);
    }
}

/// Sorting keeps the elements and orders them.
pub proof fn lemma_sorted<T: Ranked>(s: Seq<T>)
    ensures
        sorted(s).to_multiset() == s.to_multiset(),
        sorted(s).len() == s.len(),
        in_order(sorted(s)),
        forall|x: T| #[trigger] sorted(s).contains(x) <==> s.contains(x),
        s.no_duplicates() ==> sorted(s).no_duplicates(),
        s.no_duplicates() ==> ascends(sorted(s)),
{
    broadcast use vstd::seq_lib::group_to_multiset_ensures;

    lemma_rank_order_total::<T>();
    let leq = rank_order::<T>();
    s.lemma_sort_by_ensures(leq);
    let t = sorted(s);
    assert(t.to_multiset().len() == s.to_multiset().len());
    assert forall|i: int, j: int| 0 <= i < j < t.len() implies (#[trigger] t[i]).rank() <= (
    #[trigger] t[j]).rank() by {
        assert(leq(t[i], t[j]));
    }
    assert forall|x: T| #[trigger] t.contains(x) <==> s.contains(x) by {
        assert(t.to_multiset().count(x) == s.to_multiset().count(x));
    }
    if s.no_duplicates() {
        s.lemma_multiset_has_no_duplicates();
        t.lemma_multiset_has_no_duplicates_conv();
        assert forall|i: int, j: int| 0 <= i < j < t.len() implies (#[trigger] t[i]).rank() < (
        #[trigger] t[j]).rank() by {
            if t[i].rank() == t[j].rank() {
                T::rank_identifies(t[i], t[j]);
            }
        }
    }
}

/// An ordered rearrangement of `s` is its sorted form.
pub proof fn lemma_sorted_unique<T: Ranked>(s: Seq<T>, t: Seq<T>)
    requires
        in_order(t),
        t.to_multiset() == s.to_multiset(),
    ensures
        t == sorted(s),
{
    lemma_rank_order_total::<T>();
    let leq = rank_order::<T>();
    s.lemma_sort_by_ensures(leq);
    assert(sorted_by(t, leq));
    vstd::seq_lib::lemma_sorted_unique(t, sorted(s), leq);
}

/// Ascending sequences with the same members are equal.
pub proof fn lemma_ascending_unique<T: Ranked>(s: Seq<T>, t: Seq<T>)
    requires
        ascends(s),
        ascends(t),
        s.to_set() == t.to_set(),
    ensures
        s == t,
    decreases s.len(),
{
    if s.len() == 0 {
        if t.len() > 0 {
            assert(t.to_set().contains(t[0]));
            assert(s.to_set().contains(t[0]));
        }
        assert(s =~= t);
    } else {
        assert(s.to_set().contains(s.last()));
        assert(t.to_set().contains(s.last()));
        let i = choose|i: int| 0 <= i < t.len() && t[i] == s.last();
        assert(t.to_set().contains(t.last()));
        assert(s.to_set().contains(t.last()));
        let j = choose|j: int| 0 <= j < s.len() && s[j] == t.last();
        if i < t.len() - 1 {
            assert(t[i].rank() < t[t.len() - 1].rank());
            assert(s[j].rank() <= s[s.len() - 1].rank());
            assert(false);
        }
        assert(s.last() == t.last());
        let s1 = s.drop_last();
        let t1 = t.drop_last();
        assert forall|x: T| s1.to_set().contains(x) <==> t1.to_set().contains(x) by {
            if s1.contains(x) {
                let k = choose|k: int| 0 <= k < s1.len() && s1[k] == x;
                assert(s[k] == x);
                assert(s.to_set().contains(x));
                assert(t.to_set().contains(x));
                let m = choose|m: int| 0 <= m < t.len() && t[m] == x;
                assert(s[k].rank() < s[s.len() - 1].rank());
                assert(m < t.len() - 1);
                assert(t1[m] == x);
            }
            if t1.contains(x) {
                let k = choose|k: int| 0 <= k < t1.len() && t1[k] == x;
                assert(t[k] == x);
                assert(t.to_set().contains(x));
                assert(s.to_set().contains(x));
                let m = choose|m: int| 0 <= m < s.len() && s[m] == x;
                assert(t[k].rank() < t[t.len() - 1].rank());
                assert(m < s.len() - 1);
                assert(s1[m] == x);
            }
        }
        assert(s1.to_set() =~= t1.to_set());
        lemma_ascending_unique(s1, t1);
        assert(s =~= s1.push(s.last()));
        assert(t =~= t1.push(t.last()));
    }
}

/// A sequence that lists a set is its listing.
pub proof fn lemma_listing_unique<T: Ranked>(s: Seq<T>, set: Set<T>)
    requires
        lists(s, set),
    ensures
        s == listing(set),
{
    lemma_ascending_unique(s, listing(set));
}

/// Every finite set has a listing.
pub proof fn lemma_listing<T: Ranked>(set: Set<T>)
    requires
        set.finite(),
    ensures
        lists(listing(set), set),
        listing(set).no_duplicates(),
        listing(set).len() == set.len(),
        forall|x: T| #[trigger] listing(set).contains(x) <==> set.contains(x),
{
    broadcast use vstd::set::group_set_axioms;

    set.lemma_to_seq_to_set_id();
    lemma_to_seq_len(set);
    let s = set.to_seq();
    s.lemma_no_dup_set_cardinality();
    lemma_sorted(s);
    assert(sorted(s).to_set() =~= set) by {
        assert forall|x: T| sorted(s).to_set().contains(x) <==> set.contains(x) by {
            assert(sorted(s).contains(x) <==> s.contains(x));
            assert(s.to_set().contains(x) <==> set.contains(x));
        }
    }
    assert(lists(sorted(s), set));
    lemma_listing_unique(sorted(s), set);
    assert forall|x: T| #[trigger] listing(set).contains(x) <==> set.contains(x) by {
        assert(listing(set).to_set().contains(x) <==> set.contains(x));
    }
}

proof fn lemma_to_seq_len<T>(set: Set<T>)
    requires
        set.finite(),
    ensures
        set.to_seq().len() == set.len(),
    decreases set.len(),
{
    broadcast use vstd::set::group_set_axioms;

    if set.len() != 0 {
        let x = set.choose();
        vstd::set::axiom_set_choose_len(set);
        lemma_to_seq_len(set.remove(x));
    }
}

/// Sorts in place, in ascending rank.
pub fn sort_ranked<T: Ranked>(v: &mut Vec<T>)
    ensures
        final(v)@ == sorted(old(v)@),
{
    let mut done: Vec<T> = Vec::new();
    let mut i: usize = 0;
    assert(done@ =~= v@.take(0));
    while i < v.len()
        invariant
            i <= v.len(),
            v@ == old(v)@,
            in_order(done@),
            done@.to_multiset() == v@.take(i as int).to_multiset(),
        decreases v.len() - i,
    {
        let x = v[i];
        let mut k: usize = done.len();
        while k > 0 && x.rank_value() < done[k - 1].rank_value()
            invariant
                k <= done.len(),
                in_order(done@),
                forall|j: int| k <= j < done.len() ==> x.rank() < (#[trigger] done@[j]).rank(),
            decreases k,
        {
            k -= 1;
        }
        proof {
            broadcast use vstd::seq_lib::group_to_multiset_ensures;

            let before = done@;
            let after = before.insert(k as int, x);
            assert(v@.take(i + 1) =~= v@.take(i as int).push(x));
            assert(after.to_multiset() =~= before.to_multiset().insert(x));
            assert forall|a: int, b: int| 0 <= a < b < after.len() implies (
            #[trigger] after[a]).rank() <= (#[trigger] after[b]).rank() by {
                let pa = if a < k { a } else { a - 1 };
                let pb = if b < k { b } else { b - 1 };
                if a < k && k < b {
                    assert(before[pa].rank() <= before[pb].rank());
                } else if a == k {
                    assert(before[pb].rank() > x.rank());
                } else if b == k {
                    assert(before[k - 1].rank() <= x.rank());
                    if a < k - 1 {
                        assert(before[a].rank() <= before[k - 1].rank());
                    }
                } else {
                    assert(before[pa].rank() <= before[pb].rank());
                }
            }
        }
        done.insert(k, x);
        i += 1;
    }
    proof {
        assert(v@.take(v.len() as int) =~= v@);
        lemma_sorted_unique(v@, done@);
    }
    *v = done;
}

/// Sorts in ascending rank and leaves out repetitions.
pub fn sort_distinct<T: Ranked>(v: &mut Vec<T>)
    ensures
        lists(final(v)@, old(v)@.to_set()),
        final(v)@ == listing(old(v)@.to_set()),
{
    let ghost unsorted = v@;
    sort_ranked(v);
    proof {
        lemma_sorted(unsorted);
    }
    let mut kept: Vec<T> = Vec::new();
    let mut i: usize = 0;
    while i < v.len()
        invariant
            i <= v.len(),
            in_order(v@),
            ascends(kept@),
            kept.len() <= i,
            forall|x: T| #[trigger] kept@.contains(x) <==> v@.take(i as int).contains(x),
            i > 0 ==> kept.len() > 0 && kept@.last() == v@[i - 1],
        decreases v.len() - i,
    {
        let x = v[i];
        proof {
            assert(v@.take(i + 1) =~= v@.take(i as int).push(x));
            assert forall|y: T| #[trigger]
                v@.take(i + 1).contains(y) <==> v@.take(i as int).contains(y) || y == x by {
                lemma_push_contains(v@.take(i as int), x, y);
            }
        }
        if kept.len() > 0 && kept[kept.len() - 1].rank_value() == x.rank_value() {
            proof {
                T::rank_identifies(kept@.last(), x);
                assert(kept@.contains(kept@.last()));
            }
        } else {
            proof {
                if i > 0 {
                    assert(v@[i - 1].rank() <= v@[i as int].rank());
                }
                assert forall|y: T| #[trigger]
                    kept@.push(x).contains(y) <==> kept@.contains(y) || y == x by {
                    lemma_push_contains(kept@, x, y);
                }
                assert(ascends(kept@.push(x))) by {
                    let longer = kept@.push(x);
                    assert forall|a: int, b: int| 0 <= a < b < longer.len() implies (
                    #[trigger] longer[a]).rank() < (#[trigger] longer[b]).rank() by {
                        if b == kept.len() && a < kept.len() - 1 {
                            assert(kept@[a].rank() < kept@[kept.len() - 1].rank());
                        }
                    }
                }
            }
            kept.push(x);
        }
        i += 1;
    }
    proof {
        assert(v@.take(v.len() as int) =~= v@);
        assert(kept@.to_set() =~= unsorted.to_set()) by {
            assert forall|x: T| kept@.to_set().contains(x) <==> unsorted.to_set().contains(x) by {
                assert(kept@.contains(x) <==> v@.contains(x));
                assert(v@.contains(x) <==> unsorted.contains(x));
            }
        }
        lemma_listing_unique(kept@, unsorted.to_set());
    }
    *v = kept;
}

/// The keys of a map in ascending order.
pub fn sorted_keys<V>(m: &HashMap<u64, V>) -> (r: Vec<u64>)
    ensures
        lists(r@, m@.dom()),
        r@ == listing(m@.dom()),
{
    let mut keys: Vec<u64> = Vec::new();
    for key in iter: m.keys()
        invariant
            keys.len() == iter.index(),
            forall|i: int| 0 <= i < keys.len() ==> keys@[i] == *iter.seq()[i],
    {
        keys.push(*key);
    }
    proof {
        let walked = vstd::std_specs::iter::IteratorSpec::remaining(
            &vstd::std_specs::hash::spec_keys_iter(m),
        );
        assert(keys@ =~= walked.unref());
        assert forall|i: int, j: int| 0 <= i < keys.len() && 0 <= j < keys.len() && i != j
            implies keys@[i] != keys@[j] by {
            assert(walked[i] != walked[j]);
        }
    }
    let ghost unsorted = keys@;
    sort_ranked(&mut keys);
    proof {
        lemma_sorted(unsorted);
        assert(keys@.to_set() =~= m@.dom());
        lemma_listing_unique(keys@, m@.dom());
    }
    keys
}

} // verus!
