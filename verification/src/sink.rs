//! The metrics sink: the last value written under each gauge name.
//!
//! A sink starts empty and changes only when an update is applied to it. An
//! update under a name that the sink already holds overwrites the value; the
//! name is never stored a second time. Nothing is ever removed.
//!
//! A sink is described by two things: the map from each stored name to its
//! value, which is its view, and the order in which the names were first
//! written.
//!
//! A sink is an owned value and is changed through `&mut` alone. Tasks that
//! share one put it behind a lock; the batches of concurrent scrapes are then
//! applied one after the other, and for each name the last writer wins.

use crate::measurement::{names_of, GaugeUpdate, GaugeUpdateView};
use vstd::prelude::*;

verus! {

/// The gauges after one update is applied.
pub open spec fn after_update(gauges: Map<Seq<char>, u64>, u: GaugeUpdateView) -> Map<
    Seq<char>,
    u64,
> {
    gauges.insert(u.metric_name, u.value_bits)
}

/// The gauges after a sequence of updates is applied, the first one first.
pub open spec fn after_updates(gauges: Map<Seq<char>, u64>, updates: Seq<GaugeUpdateView>) -> Map<
    Seq<char>,
    u64,
>
    decreases updates.len(),
{
    if updates.len() == 0 {
        gauges
    } else {
        after_update(after_updates(gauges, updates.drop_last()), updates.last())
    }
}

/// The order of the names after one update: it grows by the update's name
/// only where the name is new.
pub open spec fn order_after_update(order: Seq<Seq<char>>, u: GaugeUpdateView) -> Seq<Seq<char>> {
    if order.contains(u.metric_name) {
        order
    } else {
        order.push(u.metric_name)
    }
}

/// The order of the names after a sequence of updates, the first one first.
pub open spec fn order_after_updates(order: Seq<Seq<char>>, updates: Seq<GaugeUpdateView>) -> Seq<
    Seq<char>,
>
    decreases updates.len(),
{
    if updates.len() == 0 {
        order
    } else {
        order_after_update(order_after_updates(order, updates.drop_last()), updates.last())
    }
}

spec fn distinct_names(entries: Seq<GaugeUpdateView>) -> bool {
    forall|i: int, j: int|
        0 <= i < j < entries.len() ==> (#[trigger] entries[i]).metric_name
            != (#[trigger] entries[j]).metric_name
}

/// The store of gauges: for each name that was ever written, the value that
/// was written last.
pub struct Sink {
    entries: Vec<GaugeUpdate>,
}

impl View for Sink {
    type V = Map<Seq<char>, u64>;

    /// The value stored under each name.
    closed spec fn view(&self) -> Map<Seq<char>, u64> {
        after_updates(Map::empty(), self.entries.deep_view())
    }
}

impl Sink {
    /// The stored names, in the order in which they were first written.
    pub closed spec fn order(&self) -> Seq<Seq<char>> {
        names_of(self.entries.deep_view())
    }

    /// The sink's invariant: no name is stored twice. Every sink that this
    /// module hands out has it.
    pub closed spec fn wf(&self) -> bool {
        distinct_names(self.entries.deep_view())
    }

    /// In a well-formed sink the order lists each stored name once, and
    /// nothing else.
    pub proof fn lemma_order_lists_names(&self)
        requires
            self.wf(),
        ensures
            self.order().no_duplicates(),
            forall|n: Seq<char>| self@.dom().contains(n) <==> self.order().contains(n),
            self@.dom().finite(),
            self@.dom().len() == self.order().len(),
    {
        let entries = self.entries.deep_view();
        lemma_len(entries);
        assert forall|n: Seq<char>| self@.dom().contains(n) <==> self.order().contains(n) by {
            lemma_after_updates_at(Map::empty(), entries, n);
        }
        let order = self.order();
        assert forall|i: int, j: int|
            0 <= i < order.len() && 0 <= j < order.len() && i != j implies order[i] != order[j] by {
            if i < j {
                assert(entries[i].metric_name != entries[j].metric_name);
            } else {
                assert(entries[j].metric_name != entries[i].metric_name);
            }
        }
    }

    /// An empty sink.
    pub fn new() -> (r: Sink)
        ensures
            r.wf(),
            r@ == Map::<Seq<char>, u64>::empty(),
            r.order() == Seq::<Seq<char>>::empty(),
    {
        let r = Sink { entries: Vec::new() };
        assert(r.entries.deep_view() =~= Seq::empty());
        assert(r.order() =~= Seq::empty());
        r
    }

    /// Where `name` is stored, if it is.
    fn position(&self, name: &String) -> (r: Option<usize>)
        ensures
            match r {
                Some(i) => i < self.entries.len() && self.entries[i as int].metric_name@ == name@,
                None => !self.order().contains(name@),
            },
    {
        let ghost names = self.order();
        let mut i: usize = 0;
        while i < self.entries.len()
            invariant
                i <= self.entries.len(),
                names == self.order(),
                forall|j: int| 0 <= j < i ==> names[j] != name@,
            decreases self.entries.len() - i,
        {
            if self.entries[i].metric_name == *name {
                return Some(i);
            }
            assert(names[i as int] == self.entries[i as int].metric_name@);
            i += 1;
        }
        proof {
            if names.contains(name@) {
                let j = choose|j: int| 0 <= j < names.len() && names[j] == name@;
            }
        }
        None
    }

    /// Stores the update's value under the update's name, in place of the
    /// value that the name had, if it had one.
    pub fn apply(&mut self, update: GaugeUpdate)
        requires
            old(self).wf(),
        ensures
            final(self).wf(),
            final(self)@ == after_update(old(self)@, update@),
            final(self).order() == order_after_update(old(self).order(), update@),
    {
        let ghost before = self.entries.deep_view();
        match self.position(&update.metric_name) {
            Some(i) => {
                proof {
                    lemma_overwrite(before, i as int, update@);
                    assert(names_of(before)[i as int] == update@.metric_name);
                }
                self.entries.set(i, update);
                assert(self.entries.deep_view() =~= before.update(i as int, update@));
            },
            None => {
                self.entries.push(update);
                assert(self.entries.deep_view() =~= before.push(update@));
                assert(before.push(update@).drop_last() =~= before);
                assert(names_of(before.push(update@)) =~= names_of(before).push(
                    update@.metric_name,
                ));
                assert forall|i: int, j: int|
                    0 <= i < j < before.push(update@).len() implies (#[trigger] before.push(
                    update@,
                )[i]).metric_name != (#[trigger] before.push(update@)[j]).metric_name by {
                    if j == before.len() {
                        assert(names_of(before)[i] == before[i].metric_name);
                    }
                }
            },
        }
    }

    /// Applies the updates one after the other, the first one first.
    pub fn apply_all(&mut self, updates: Vec<GaugeUpdate>)
        requires
            old(self).wf(),
        ensures
            final(self).wf(),
            final(self)@ == after_updates(old(self)@, updates.deep_view()),
            final(self).order() == order_after_updates(old(self).order(), updates.deep_view()),
    {
        let ghost all = updates.deep_view();
        let ghost gauges = self@;
        let ghost order = self.order();
        assert(all.take(0) =~= Seq::empty());
        for u in it: updates
            invariant
                self.wf(),
                all == updates.deep_view(),
                it.seq() == updates@,
                self@ == after_updates(gauges, all.take(it.index() as int)),
                self.order() == order_after_updates(order, all.take(it.index() as int)),
        {
            assert(all.take(it.index() + 1).drop_last() =~= all.take(it.index() as int));
            assert(all.take(it.index() + 1).last() == u@);
            self.apply(u);
        }
        assert(all.take(all.len() as int) =~= all);
    }

    /// The value stored under `name`, if the name was ever written.
    pub fn get(&self, name: &str) -> (r: Option<u64>)
        requires
            self.wf(),
        ensures
            r == (if self@.dom().contains(name@) {
                Some(self@[name@])
            } else {
                None
            }),
    {
        proof {
            lemma_after_updates_at(Map::empty(), self.entries.deep_view(), name@);
        }
        let key = String::from_str(name);
        match self.position(&key) {
            Some(i) => {
                proof {
                    lemma_last_update_wins(Map::empty(), self.entries.deep_view(), i as int);
                }
                Some(self.entries[i].value_bits)
            },
            None => None,
        }
    }

    /// The number of names stored.
    pub fn len(&self) -> (r: usize)
        requires
            self.wf(),
        ensures
            r == self.order().len(),
            self@.dom().finite(),
            r == self@.dom().len(),
    {
        proof {
            lemma_len(self.entries.deep_view());
        }
        self.entries.len()
    }

    /// What is stored, as one update for each name, in the order in which
    /// the names were first written. Applied to an empty sink, the updates
    /// give this sink again.
    pub fn snapshot(&self) -> (r: Vec<GaugeUpdate>)
        requires
            self.wf(),
        ensures
            names_of(r.deep_view()) == self.order(),
            after_updates(Map::empty(), r.deep_view()) == self@,
    {
        let mut out: Vec<GaugeUpdate> = Vec::new();
        let mut i: usize = 0;
        while i < self.entries.len()
            invariant
                i <= self.entries.len(),
                out.len() == i,
                forall|j: int| 0 <= j < i ==> (#[trigger] out[j])@ == self.entries[j]@,
            decreases self.entries.len() - i,
        {
            out.push(self.entries[i].duplicate());
            i += 1;
        }
        assert(out.deep_view() =~= self.entries.deep_view());
        out
    }
}

/// A name is among the names of a sequence of updates if it is the last
/// update's name or among the names of the updates before the last.
proof fn lemma_names_step(updates: Seq<GaugeUpdateView>, n: Seq<char>)
    requires
        updates.len() > 0,
    ensures
        names_of(updates).contains(n) <==> names_of(updates.drop_last()).contains(n) || n
            == updates.last().metric_name,
{
    let names = names_of(updates);
    let rest = names_of(updates.drop_last());
    if rest.contains(n) {
        let i = choose|i: int| 0 <= i < rest.len() && rest[i] == n;
        assert(names[i] == n);
    }
    if n == updates.last().metric_name {
        assert(names[updates.len() - 1] == n);
    }
    if names.contains(n) {
        let i = choose|i: int| 0 <= i < names.len() && names[i] == n;
        if i < updates.len() - 1 {
            assert(rest[i] == n);
        }
    }
}

/// The gauges after a sequence of updates, name by name: a name is stored
/// if it was stored before or one of the updates has it, and a name that no
/// update has keeps its value.
pub proof fn lemma_after_updates_at(
    gauges: Map<Seq<char>, u64>,
    updates: Seq<GaugeUpdateView>,
    n: Seq<char>,
)
    ensures
        after_updates(gauges, updates).dom().contains(n) <==> gauges.dom().contains(n) || names_of(
            updates,
        ).contains(n),
        !names_of(updates).contains(n) && gauges.dom().contains(n) ==> after_updates(
            gauges,
            updates,
        )[n] == gauges[n],
    decreases updates.len(),
{
    if updates.len() == 0 {
        if names_of(updates).contains(n) {
            let i = choose|i: int| 0 <= i < names_of(updates).len() && names_of(updates)[i] == n;
        }
    } else {
        lemma_after_updates_at(gauges, updates.drop_last(), n);
        lemma_names_step(updates, n);
    }
}

/// The order of the names after a sequence of updates: it lists a name if
/// it listed the name before or one of the updates has it.
pub proof fn lemma_order_after_updates_at(
    order: Seq<Seq<char>>,
    updates: Seq<GaugeUpdateView>,
    n: Seq<char>,
)
    ensures
        order_after_updates(order, updates).contains(n) <==> order.contains(n) || names_of(
            updates,
        ).contains(n),
    decreases updates.len(),
{
    if updates.len() == 0 {
        if names_of(updates).contains(n) {
            let i = choose|i: int| 0 <= i < names_of(updates).len() && names_of(updates)[i] == n;
        }
    } else {
        let last = updates.last();
        let before = order_after_updates(order, updates.drop_last());
        lemma_order_after_updates_at(order, updates.drop_last(), n);
        lemma_names_step(updates, n);
        if !before.contains(last.metric_name) {
            let after = before.push(last.metric_name);
            assert(after[before.len() as int] == last.metric_name);
            if before.contains(n) {
                let i = choose|i: int| 0 <= i < before.len() && before[i] == n;
                assert(after[i] == n);
            }
            if after.contains(n) {
                let i = choose|i: int| 0 <= i < after.len() && after[i] == n;
                if i < before.len() {
                    assert(before[i] == n);
                }
            }
        }
    }
}

/// No update stores a name twice: an order that lists no name twice lists
/// none twice after any sequence of updates.
pub proof fn lemma_order_stays_free_of_duplicates(
    order: Seq<Seq<char>>,
    updates: Seq<GaugeUpdateView>,
)
    requires
        order.no_duplicates(),
    ensures
        order_after_updates(order, updates).no_duplicates(),
    decreases updates.len(),
{
    if updates.len() > 0 {
        lemma_order_stays_free_of_duplicates(order, updates.drop_last());
    }
}

/// The value that a sequence of updates leaves under a name that one of
/// them has does not depend on what was stored before.
pub proof fn lemma_updates_decide_their_names(
    one: Map<Seq<char>, u64>,
    other: Map<Seq<char>, u64>,
    updates: Seq<GaugeUpdateView>,
    n: Seq<char>,
)
    requires
        names_of(updates).contains(n),
    ensures
        after_updates(one, updates)[n] == after_updates(other, updates)[n],
    decreases updates.len(),
{
    let i = choose|i: int| 0 <= i < names_of(updates).len() && names_of(updates)[i] == n;
    let rest = updates.drop_last();
    if n != updates.last().metric_name {
        lemma_names_step(updates, n);
        lemma_updates_decide_their_names(one, other, rest, n);
        lemma_after_updates_at(one, rest, n);
        lemma_after_updates_at(other, rest, n);
    }
}

/// The last update under a name decides the value stored under it.
pub proof fn lemma_last_update_wins(
    gauges: Map<Seq<char>, u64>,
    updates: Seq<GaugeUpdateView>,
    i: int,
)
    requires
        0 <= i < updates.len(),
        forall|j: int|
            i < j < updates.len() ==> (#[trigger] updates[j]).metric_name
                != updates[i].metric_name,
    ensures
        after_updates(gauges, updates).dom().contains(updates[i].metric_name),
        after_updates(gauges, updates)[updates[i].metric_name] == updates[i].value_bits,
    decreases updates.len(),
{
    if i < updates.len() - 1 {
        let rest = updates.drop_last();
        assert(rest[i] == updates[i]);
        assert(updates[updates.len() - 1].metric_name != updates[i].metric_name);
        assert forall|j: int| i < j < rest.len() implies (#[trigger] rest[j]).metric_name
            != rest[i].metric_name by {
            assert(updates[j].metric_name != updates[i].metric_name);
        }
        lemma_last_update_wins(gauges, rest, i);
    }
}

/// Applying the same update twice leaves the sink as applying it once does.
pub proof fn lemma_apply_is_idempotent(
    gauges: Map<Seq<char>, u64>,
    order: Seq<Seq<char>>,
    u: GaugeUpdateView,
)
    ensures
        after_update(after_update(gauges, u), u) == after_update(gauges, u),
        order_after_update(order_after_update(order, u), u) == order_after_update(order, u),
{
    assert(after_update(after_update(gauges, u), u) =~= after_update(gauges, u));
    if !order.contains(u.metric_name) {
        assert(order_after_update(order, u)[order.len() as int] == u.metric_name);
    }
}

/// A second update under the name of a first one replaces the first one's
/// value and adds no name: the gauges are as if the second alone had been
/// applied, and the sink holds the names that it held after the first.
pub proof fn lemma_update_overwrites(
    gauges: Map<Seq<char>, u64>,
    order: Seq<Seq<char>>,
    first: GaugeUpdateView,
    second: GaugeUpdateView,
)
    requires
        first.metric_name == second.metric_name,
    ensures
        after_update(after_update(gauges, first), second) == after_update(gauges, second),
        after_update(after_update(gauges, first), second)[second.metric_name] == second.value_bits,
        after_update(after_update(gauges, first), second).dom() == after_update(
            gauges,
            first,
        ).dom(),
        order_after_update(order_after_update(order, first), second) == order_after_update(
            order,
            first,
        ),
{
    assert(after_update(after_update(gauges, first), second) =~= after_update(gauges, second));
    assert(after_update(after_update(gauges, first), second).dom() =~= after_update(
        gauges,
        first,
    ).dom());
    if !order.contains(first.metric_name) {
        assert(order_after_update(order, first)[order.len() as int] == first.metric_name);
    }
}

/// Updates under names that are all stored already add no name to the
/// gauges.
pub proof fn lemma_known_names_add_no_gauge(
    gauges: Map<Seq<char>, u64>,
    updates: Seq<GaugeUpdateView>,
)
    requires
        forall|n: Seq<char>| names_of(updates).contains(n) ==> gauges.dom().contains(n),
    ensures
        after_updates(gauges, updates).dom() == gauges.dom(),
{
    assert forall|n: Seq<char>|
        after_updates(gauges, updates).dom().contains(n) == gauges.dom().contains(n) by {
        lemma_after_updates_at(gauges, updates, n);
    }
    assert(after_updates(gauges, updates).dom() =~= gauges.dom());
}

/// Updates under names that are all listed already leave the order of the
/// names as it is.
pub proof fn lemma_known_names_keep_order(order: Seq<Seq<char>>, updates: Seq<GaugeUpdateView>)
    requires
        forall|n: Seq<char>| names_of(updates).contains(n) ==> order.contains(n),
    ensures
        order_after_updates(order, updates) == order,
    decreases updates.len(),
{
    if updates.len() > 0 {
        let rest = updates.drop_last();
        assert forall|n: Seq<char>| names_of(rest).contains(n) implies order.contains(n) by {
            lemma_names_step(updates, n);
        }
        lemma_known_names_keep_order(order, updates.drop_last());
        lemma_names_step(updates, updates.last().metric_name);
    }
}

/// Where a second sequence of updates has every name that a first one has,
/// the first one leaves no trace: the gauges are as if the second alone had
/// been applied.
pub proof fn lemma_later_updates_overwrite(
    gauges: Map<Seq<char>, u64>,
    first: Seq<GaugeUpdateView>,
    second: Seq<GaugeUpdateView>,
)
    requires
        forall|n: Seq<char>| names_of(first).contains(n) ==> names_of(second).contains(n),
    ensures
        after_updates(after_updates(gauges, first), second) == after_updates(gauges, second),
{
    let between = after_updates(gauges, first);
    let both = after_updates(between, second);
    let alone = after_updates(gauges, second);
    assert forall|n: Seq<char>| both.dom().contains(n) == alone.dom().contains(n) by {
        lemma_after_updates_at(between, second, n);
        lemma_after_updates_at(gauges, second, n);
        lemma_after_updates_at(gauges, first, n);
    }
    assert forall|n: Seq<char>| both.dom().contains(n) implies both[n] == alone[n] by {
        lemma_after_updates_at(between, second, n);
        lemma_after_updates_at(gauges, second, n);
        lemma_after_updates_at(gauges, first, n);
        if names_of(second).contains(n) {
            lemma_updates_decide_their_names(between, gauges, second, n);
        }
    }
    assert(both =~= alone);
}

/// With distinct names, each update adds a gauge: there are as many gauges
/// as updates.
proof fn lemma_len(entries: Seq<GaugeUpdateView>)
    requires
        distinct_names(entries),
    ensures
        after_updates(Map::empty(), entries).dom().finite(),
        after_updates(Map::empty(), entries).dom().len() == entries.len(),
    decreases entries.len(),
{
    if entries.len() > 0 {
        let rest = entries.drop_last();
        let n = entries.last().metric_name;
        lemma_len(rest);
        lemma_after_updates_at(Map::empty(), rest, n);
        if names_of(rest).contains(n) {
            let i = choose|i: int| 0 <= i < names_of(rest).len() && names_of(rest)[i] == n;
            assert(entries[i].metric_name == entries[entries.len() - 1].metric_name);
        }
    }
}

/// With distinct names, a new value for the entry at `i` is what an update
/// under that entry's name stores.
proof fn lemma_overwrite(entries: Seq<GaugeUpdateView>, i: int, u: GaugeUpdateView)
    requires
        distinct_names(entries),
        0 <= i < entries.len(),
        entries[i].metric_name == u.metric_name,
    ensures
        after_updates(Map::empty(), entries.update(i, u)) == after_update(
            after_updates(Map::empty(), entries),
            u,
        ),
        distinct_names(entries.update(i, u)),
        names_of(entries.update(i, u)) == names_of(entries),
    decreases entries.len(),
{
    let changed = entries.update(i, u);
    let rest = entries.drop_last();
    assert(names_of(changed) =~= names_of(entries));
    if i == entries.len() - 1 {
        assert(changed.drop_last() =~= rest);
    } else {
        assert(changed.drop_last() =~= rest.update(i, u));
        assert(rest[i] == entries[i]);
        assert(entries[i].metric_name != entries[entries.len() - 1].metric_name);
        lemma_overwrite(rest, i, u);
    }
    assert(after_updates(Map::empty(), changed) =~= after_update(
        after_updates(Map::empty(), entries),
        u,
    ));
}

} // verus!
