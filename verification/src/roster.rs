//! Values of windows, in the order in which the windows came.
use crate::ids::WindowId;
use crate::sequences::lemma_filter;
use crate::sequences::lemma_filter_all;
use crate::sequences::lemma_filter_out;
use crate::sequences::lemma_filter_same;
use crate::sequences::lemma_filter_twice;
use crate::sequences::lemma_push_contains;
use vstd::prelude::*;

verus! {

/// At most one value for each window.
#[derive(Debug)]
pub struct Roster<V> {
    entries: Vec<(WindowId, V)>,
}

/// What a [`Roster`] holds: its windows, in the order in which they came, and
/// their values.
#[verifier::ext_equal]
pub struct RosterState<V> {
    pub order: Seq<WindowId>,
    pub values: Map<WindowId, V>,
}

/// Accepts every window but one.
pub open spec fn other_than(window: WindowId) -> spec_fn(WindowId) -> bool {
    |other: WindowId| other != window
}

impl<V> RosterState<V> {
    pub open spec fn empty() -> Self {
        RosterState { order: Seq::empty(), values: Map::empty() }
    }

    /// The order names the windows that have a value, each once.
    pub open spec fn well_formed(self) -> bool {
        self.order.no_duplicates() && self.order.to_set() == self.values.dom()
    }

    pub open spec fn get(self, window: WindowId) -> Option<V> {
        if self.values.contains_key(window) {
            Some(self.values[window])
        } else {
            None
        }
    }

    /// A new window comes last; a known one keeps its place.
    pub open spec fn put(self, window: WindowId, value: V) -> Self {
        RosterState {
            order: if self.values.contains_key(window) {
                self.order
            } else {
                self.order.push(window)
            },
            values: self.values.insert(window, value),
        }
    }

    pub open spec fn remove(self, window: WindowId) -> Self {
        self.keep(other_than(window))
    }

    /// The windows that `wanted` accepts, and their values.
    pub open spec fn keep(self, wanted: spec_fn(WindowId) -> bool) -> Self {
        RosterState {
            order: self.order.filter(wanted),
            values: self.values.restrict(self.values.dom().filter(wanted)),
        }
    }

    /// The windows and values in order.
    pub open spec fn pairs(self) -> Seq<(WindowId, V)> {
        self.order.map_values(|window: WindowId| (window, self.values[window]))
    }
}

/// Accepts every window but those of the first `count` that `wanted` does not
/// accept.
pub open spec fn unless_among(
    order: Seq<WindowId>,
    count: int,
    wanted: spec_fn(WindowId) -> bool,
) -> spec_fn(WindowId) -> bool {
    |window: WindowId| order.take(count).contains(window) ==> wanted(window)
}

/// Taking out unwanted windows one by one, in order, keeps the wanted ones.
pub proof fn lemma_keep_by_steps<V>(
    roster: RosterState<V>,
    wanted: spec_fn(WindowId) -> bool,
    count: int,
)
    requires
        roster.well_formed(),
        0 <= count <= roster.order.len(),
    ensures
        roster.keep(unless_among(roster.order, 0, wanted)) == roster,
        roster.keep(unless_among(roster.order, roster.order.len() as int, wanted)) == roster.keep(
            wanted,
        ),
        count < roster.order.len() ==> roster.keep(
            unless_among(roster.order, count + 1, wanted),
        ) == if wanted(roster.order[count]) {
            roster.keep(unless_among(roster.order, count, wanted))
        } else {
            roster.keep(unless_among(roster.order, count, wanted)).remove(roster.order[count])
        },
{
    let order = roster.order;
    let none = unless_among(order, 0, wanted);
    let all = unless_among(order, order.len() as int, wanted);
    assert(order.take(0) =~= Seq::empty());
    assert(order.take(order.len() as int) =~= order);
    lemma_filter_all(order, none);
    assert(roster.keep(none) =~= roster);
    lemma_filter_same(order, all, wanted);
    assert(roster.keep(all).values =~= roster.keep(wanted).values) by {
        assert forall|w: WindowId| roster.values.contains_key(w) implies all(w) == wanted(w) by {
            assert(order.to_set().contains(w));
        }
    }
    if count < order.len() {
        let now = unless_among(order, count, wanted);
        let next = unless_among(order, count + 1, wanted);
        let window = order[count];
        assert(order.take(count + 1) =~= order.take(count).push(window));
        assert forall|w: WindowId| order.take(count + 1).contains(w) <==> order.take(
            count,
        ).contains(w) || w == window by {
            lemma_push_contains(order.take(count), window, w);
        }
        assert(!order.take(count).contains(window)) by {
            if order.take(count).contains(window) {
                let k = choose|k: int| 0 <= k < count && order.take(count)[k] == window;
                assert(order[k] == order[count]);
            }
        }
        if wanted(window) {
            assert(now =~= next);
        } else {
            lemma_filter_twice(order, now, other_than(window), next);
            assert(roster.keep(now).remove(window).values =~= roster.keep(next).values);
        }
    }
}

spec fn windows_of<V>(entries: Seq<(WindowId, V)>) -> Seq<WindowId> {
    entries.map_values(|entry: (WindowId, V)| entry.0)
}

spec fn held<V>(entries: Seq<(WindowId, V)>) -> RosterState<V> {
    let order = windows_of(entries);
    RosterState {
        order,
        values: Map::new(
            |window: WindowId| order.contains(window),
            |window: WindowId| entries[order.index_of(window)].1,
        ),
    }
}

impl<V> View for Roster<V> {
    type V = RosterState<V>;

    closed spec fn view(&self) -> RosterState<V> {
        held(self.entries@)
    }
}

proof fn lemma_held<V>(entries: Seq<(WindowId, V)>)
    requires
        windows_of(entries).no_duplicates(),
    ensures
        held(entries).well_formed(),
        held(entries).order.len() == entries.len(),
        held(entries).pairs() == entries,
        forall|i: int|
            0 <= i < entries.len() ==> held(entries).order[i] == (#[trigger] entries[i]).0
                && held(entries).values.contains_key(entries[i].0)
                && held(entries).values[entries[i].0] == entries[i].1,
{
    let order = windows_of(entries);
    assert forall|i: int| 0 <= i < entries.len() implies held(entries).order[i] == (
    #[trigger] entries[i]).0 && held(entries).values.contains_key(entries[i].0)
        && held(entries).values[entries[i].0] == entries[i].1 by {
        assert(order[i] == entries[i].0);
        assert(order.contains(entries[i].0));
        let k = order.index_of(entries[i].0);
        assert(order[k] == order[i]);
    }
    assert(order.to_set() =~= held(entries).values.dom());
    assert(held(entries).pairs() =~= entries);
}

impl<V> Roster<V> {
    #[verifier::type_invariant]
    spec fn listed_once(self) -> bool {
        windows_of(self.entries@).no_duplicates()
    }
}

impl<V: Copy> Roster<V> {
    pub fn new() -> (r: Self)
        ensures
            r@ == RosterState::<V>::empty(),
            r@.well_formed(),
    {
        let r = Roster { entries: Vec::new() };
        assert(r@.order =~= Seq::empty());
        assert(r@.values =~= Map::empty());
        r
    }

    pub fn len(&self) -> (r: usize)
        ensures
            r == self@.order.len(),
            self@.well_formed(),
    {
        proof {
            use_type_invariant(self);
            lemma_held(self.entries@);
        }
        self.entries.len()
    }

    /// The windows and their values, in order.
    pub fn pairs(&self) -> (r: Vec<(WindowId, V)>)
        ensures
            r@ == self@.pairs(),
            self@.well_formed(),
    {
        proof {
            use_type_invariant(self);
            lemma_held(self.entries@);
        }
        let mut copy: Vec<(WindowId, V)> = Vec::new();
        let mut i: usize = 0;
        while i < self.entries.len()
            invariant
                i <= self.entries.len(),
                copy@ =~= self.entries@.take(i as int),
            decreases self.entries.len() - i,
        {
            copy.push(self.entries[i]);
            i += 1;
        }
        copy
    }

    fn position(&self, window: WindowId) -> (r: Option<usize>)
        ensures
            match r {
                Some(i) => i < self.entries.len() && self.entries@[i as int].0 == window,
                None => !self@.values.contains_key(window),
            },
    {
        let mut i: usize = 0;
        while i < self.entries.len()
            invariant
                i <= self.entries.len(),
                forall|j: int| 0 <= j < i ==> windows_of(self.entries@)[j] != window,
            decreases self.entries.len() - i,
        {
            if self.entries[i].0 == window {
                return Some(i);
            }
            i += 1;
        }
        None
    }

    pub fn get(&self, window: WindowId) -> (r: Option<V>)
        ensures
            r == self@.get(window),
            self@.well_formed(),
    {
        proof {
            use_type_invariant(self);
            lemma_held(self.entries@);
        }
        match self.position(window) {
            Some(i) => Some(self.entries[i].1),
            None => None,
        }
    }

    pub fn put(&mut self, window: WindowId, value: V)
        ensures
            final(self)@ == old(self)@.put(window, value),
            old(self)@.well_formed(),
            final(self)@.well_formed(),
    {
        proof {
            use_type_invariant(&*self);
            lemma_held(self.entries@);
        }
        let place = self.position(window);
        let mut entries: Vec<(WindowId, V)> = Vec::new();
        std::mem::swap(&mut entries, &mut self.entries);
        let ghost before = entries@;
        match place {
            Some(i) => {
                entries.set(i, (window, value));
                proof {
                    assert(windows_of(entries@) =~= windows_of(before));
                }
            },
            None => {
                entries.push((window, value));
                proof {
                    assert(windows_of(entries@) =~= windows_of(before).push(window));
                    assert(!windows_of(before).contains(window));
                }
            },
        }
        proof {
            lemma_held(entries@);
            assert(held(entries@).values =~= held(before).put(window, value).values) by {
                assert forall|w: WindowId| held(entries@).values.contains_key(w)
                    <==> held(before).put(window, value).values.contains_key(w) by {
                    if windows_of(before).contains(w) {
                        let k = windows_of(before).index_of(w);
                        assert(windows_of(entries@)[k] == w);
                    }
                    if w == window {
                        match place {
                            Some(i) => {
                                assert(windows_of(entries@)[i as int] == w);
                            },
                            None => {
                                assert(windows_of(entries@)[before.len() as int] == w);
                            },
                        }
                    }
                }
                assert forall|w: WindowId| held(entries@).values.contains_key(w) implies held(
                    entries@,
                ).values[w] == held(before).put(window, value).values[w] by {
                    let k = windows_of(entries@).index_of(w);
                    assert(entries@[k].0 == w);
                    if k < before.len() {
                        assert(before[k].0 == w);
                    }
                }
            }
            assert(held(entries@) =~= held(before).put(window, value));
        }
        self.entries = entries;
    }

    pub fn remove(&mut self, window: WindowId) -> (r: Option<V>)
        ensures
            r == old(self)@.get(window),
            final(self)@ == old(self)@.remove(window),
            old(self)@.well_formed(),
            final(self)@.well_formed(),
    {
        proof {
            use_type_invariant(&*self);
            lemma_held(self.entries@);
        }
        let removed = self.get(window);
        let place = self.position(window);
        let mut entries: Vec<(WindowId, V)> = Vec::new();
        std::mem::swap(&mut entries, &mut self.entries);
        let ghost before = entries@;
        if let Some(i) = place {
            entries.remove(i);
            proof {
                let order = windows_of(before);
                let wanted = other_than(window);
                lemma_filter_out(order, i as int, wanted);
                assert(windows_of(entries@) =~= order.remove(i as int));
                assert(order.filter(wanted) == order.remove(i as int));
            }
        } else {
            proof {
                let order = windows_of(before);
                let wanted = other_than(window);
                lemma_filter_all(order, wanted);
            }
        }
        proof {
            let order = windows_of(before);
            let after = windows_of(entries@);
            assert forall|i: int, j: int| 0 <= i < after.len() && 0 <= j < after.len() && i != j
                implies after[i] != after[j] by {
                if let Some(p) = place {
                    let i2 = if i < p { i } else { i + 1 };
                    let j2 = if j < p { j } else { j + 1 };
                    assert(after[i] == order[i2]);
                    assert(after[j] == order[j2]);
                }
            }
            lemma_held(entries@);
            lemma_held(before);
            assert(held(entries@).values =~= held(before).remove(window).values) by {
                assert forall|w: WindowId| held(entries@).values.contains_key(w)
                    <==> held(before).remove(window).values.contains_key(w) by {
                    lemma_filter(order, other_than(window));
                    assert(after.contains(w) <==> order.contains(w) && w != window);
                }
                assert forall|w: WindowId| held(entries@).values.contains_key(w) implies held(
                    entries@,
                ).values[w] == held(before).remove(window).values[w] by {
                    let k = after.index_of(w);
                    assert(entries@[k].0 == w);
                    if let Some(p) = place {
                        let k2 = if k < p { k } else { k + 1 };
                        assert(before[k2] == entries@[k]);
                    }
                }
            }
            assert(held(entries@) =~= held(before).remove(window));
        }
        self.entries = entries;
        removed
    }
}

} // verus!
