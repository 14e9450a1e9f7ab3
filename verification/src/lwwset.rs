//! A last-writer-wins set: every add and every remove of an item carries a
//! clock, and the item is a member while its latest add is later than its
//! latest remove. The clocks of removes stay behind as tombstones, so that a
//! merge with an old add cannot bring a removed item back.

use crate::btree::map_pop_first;
use crate::hlc::HybridLogicalClock;
use crate::merge::Merge;
use crate::merge::MergeLaws;
use crate::values::ascending;
use crate::values::ascending_keys;
use crate::values::entries;
use std::cmp::Ordering;
use std::collections::BTreeMap;
use vstd::laws_cmp::obeys_cmp;
use vstd::prelude::*;
use vstd::std_specs::cmp::OrdSpec;

verus! {

/// The clocks of a map after `clock` is recorded for `item`: the later of
/// `clock` and what the map held for the item.
pub open spec fn record<T>(
    clocks: Map<T, HybridLogicalClock>,
    item: T,
    clock: HybridLogicalClock,
) -> Map<T, HybridLogicalClock> {
    if clocks.contains_key(item) && !clocks[item].before(clock) {
        clocks
    } else {
        clocks.insert(item, clock)
    }
}

/// The pointwise later of two maps of clocks.
pub open spec fn join_clocks<T>(
    a: Map<T, HybridLogicalClock>,
    b: Map<T, HybridLogicalClock>,
) -> Map<T, HybridLogicalClock> {
    Map::new(
        |item: T| a.contains_key(item) || b.contains_key(item),
        |item: T|
            if a.contains_key(item) && b.contains_key(item) {
                a[item].later(b[item])
            } else if a.contains_key(item) {
                a[item]
            } else {
                b[item]
            },
    )
}

/// The abstract state of a last-writer-wins set: for each item the clock of
/// its latest add, and the clock of its latest remove.
#[verifier::ext_equal]
#[verifier::reject_recursive_types(T)]
pub struct LWWSetView<T> {
    pub adds: Map<T, HybridLogicalClock>,
    pub removes: Map<T, HybridLogicalClock>,
}

impl<T> LWWSetView<T> {
    /// The state of a set that was never touched.
    pub open spec fn empty() -> Self {
        LWWSetView { adds: Map::empty(), removes: Map::empty() }
    }

    /// Whether `item` is a member: it was added, and either never removed or
    /// added later than it was last removed.
    pub open spec fn contains(self, item: T) -> bool {
        self.adds.contains_key(item) && (self.removes.contains_key(item)
            ==> self.removes[item].before(self.adds[item]))
    }

    /// The members.
    pub open spec fn members(self) -> Set<T> {
        Set::new(|item: T| self.contains(item))
    }

    /// The state after an add of `item` at `clock`.
    pub open spec fn insert(self, item: T, clock: HybridLogicalClock) -> Self {
        LWWSetView { adds: record(self.adds, item, clock), removes: self.removes }
    }

    /// The state after a remove of `item` at `clock`.
    pub open spec fn remove(self, item: T, clock: HybridLogicalClock) -> Self {
        LWWSetView { adds: self.adds, removes: record(self.removes, item, clock) }
    }

    /// The join of two states: the later add and the later remove of every
    /// item, each taken on its own.
    pub open spec fn join(self, other: Self) -> Self {
        LWWSetView {
            adds: join_clocks(self.adds, other.adds),
            removes: join_clocks(self.removes, other.removes),
        }
    }
}

/// Records `clock` for `item` unless the map holds a clock for the item that
/// is not earlier.
fn record_clock<T: Ord>(
    clocks: &mut BTreeMap<T, HybridLogicalClock>,
    item: T,
    clock: HybridLogicalClock,
)
    requires
        obeys_cmp::<T>(),
    ensures
        final(clocks)@ == record(old(clocks)@, item, clock),
{
    let newer = match clocks.get(&item) {
        Some(known) => known.precedes(&clock),
        None => true,
    };
    if newer {
        clocks.insert(item, clock);
    }
}

/// Records every clock of `incoming` in `clocks`.
fn record_all<T: Ord>(
    clocks: &mut BTreeMap<T, HybridLogicalClock>,
    incoming: BTreeMap<T, HybridLogicalClock>,
)
    requires
        obeys_cmp::<T>(),
    ensures
        final(clocks)@ == join_clocks(old(clocks)@, incoming@),
{
    let mut rest = incoming;
    loop
        invariant
            obeys_cmp::<T>(),
            rest@.dom().finite(),
            join_clocks(clocks@, rest@) == join_clocks(old(clocks)@, incoming@),
        ensures
            clocks@ == join_clocks(old(clocks)@, incoming@),
        decreases rest@.dom().len(),
    {
        match map_pop_first(&mut rest) {
            Some((item, clock)) => {
                record_clock(clocks, item, clock);
            },
            None => {
                assert(join_clocks(clocks@, rest@) =~= clocks@);
                break ;
            },
        }
    }
}

/// A set whose adds and removes are settled by their clocks.
#[derive(Debug, Clone, PartialEq, Eq)]
pub struct LWWSet<T: Ord> {
    adds: BTreeMap<T, HybridLogicalClock>,
    removes: BTreeMap<T, HybridLogicalClock>,
}

impl<T: Ord> View for LWWSet<T> {
    type V = LWWSetView<T>;

    closed spec fn view(&self) -> LWWSetView<T> {
        LWWSetView { adds: self.adds@, removes: self.removes@ }
    }
}

impl<T: Ord> LWWSet<T> {
    /// A set is well formed exactly where the order of its items is one
    /// that an ordered collection can rely on.
    pub proof fn lemma_wf(&self)
        ensures
            self.wf() == obeys_cmp::<T>(),
    {
    }

    /// The members in ascending order.
    pub fn iter(&self) -> (listed: Vec<&T>)
        requires
            self.wf(),
        ensures
            forall|i: int| 0 <= i < listed@.len() ==> self@.contains(*#[trigger] listed@[i]),
            forall|item: T|
                self@.contains(item) ==> exists|i: int|
                    0 <= i < listed@.len() && *#[trigger] listed@[i] == item,
            ascending(listed@),
    {
        let added = entries(&self.adds);
        let mut listed: Vec<&T> = Vec::new();
        let ghost mut picked: Seq<int> = Seq::empty();
        let ghost mut seen: int = 0;
        let mut at: usize = 0;
        while at < added.len()
            invariant
                self.wf(),
                at <= added@.len(),
                seen == at,
                forall|i: int|
                    0 <= i < added@.len() ==> self.adds@.contains_key(*(#[trigger] added@[i]).0),
                ascending_keys(added@),
                picked.len() == listed@.len(),
                forall|n: int|
                    0 <= n < picked.len() ==> 0 <= #[trigger] picked[n] < at && listed@[n]
                        == added@[picked[n]].0,
                forall|m: int, n: int|
                    0 <= m < n < picked.len() ==> #[trigger] picked[m] < #[trigger] picked[n],
                forall|n: int| 0 <= n < listed@.len() ==> self@.contains(*#[trigger] listed@[n]),
                forall|i: int|
                    0 <= i < at && self@.contains(*(#[trigger] added@[i]).0) ==> exists|n: int|
                        0 <= n < listed@.len() && *#[trigger] listed@[n] == *added@[i].0,
            decreases added@.len() - at,
        {
            let item = added[at].0;
            if self.contains(item) {
                proof {
                    let ghost before = listed@;
                    assert forall|i: int|
                        0 <= i < at && self@.contains(*(#[trigger] added@[i]).0) implies exists|
                        n: int,
                    |
                        0 <= n < before.push(item).len() && *#[trigger] before.push(item)[n]
                            == *added@[i].0 by {
                        let n = choose|n: int|
                            0 <= n < before.len() && *#[trigger] before[n] == *added@[i].0;
                        assert(*before.push(item)[n] == *added@[i].0);
                    }
                    picked = picked.push(seen);
                }
                listed.push(item);
                assert(*listed@[listed@.len() - 1] == *added@[seen].0);
            }
            at = at + 1;
            proof {
                seen = seen + 1;
            }
        }
        proof {
            assert forall|i: int, j: int| 0 <= i < j < listed@.len() implies (#[trigger] listed@[i]).cmp_spec(
                #[trigger] listed@[j],
            ) == Ordering::Less by {
                assert(added@[picked[i]].0.cmp_spec(added@[picked[j]].0) == Ordering::Less);
            }
            assert forall|item: T| self@.contains(item) implies exists|i: int|
                0 <= i < listed@.len() && *#[trigger] listed@[i] == item by {
                let i = choose|i: int| 0 <= i < added@.len() && *(#[trigger] added@[i]).0 == item;
                assert(self@.contains(*added@[i].0));
            }
        }
        listed
    }

    /// The latest add of every item that was ever added, in ascending order
    /// of the items.
    pub fn adds(&self) -> (listed: Vec<(&T, &HybridLogicalClock)>)
        requires
            self.wf(),
        ensures
            listed@.len() == self@.adds.dom().len(),
            forall|i: int|
                0 <= i < listed@.len() ==> self@.adds.contains_key(*(#[trigger] listed@[i]).0)
                    && self@.adds[*listed@[i].0] == *listed@[i].1,
            forall|item: T|
                self@.adds.contains_key(item) ==> exists|i: int|
                    0 <= i < listed@.len() && *(#[trigger] listed@[i]).0 == item,
            ascending_keys(listed@),
    {
        entries(&self.adds)
    }

    /// The latest remove of every item that was ever removed, in ascending
    /// order of the items.
    pub fn removes(&self) -> (listed: Vec<(&T, &HybridLogicalClock)>)
        requires
            self.wf(),
        ensures
            listed@.len() == self@.removes.dom().len(),
            forall|i: int|
                0 <= i < listed@.len() ==> self@.removes.contains_key(*(#[trigger] listed@[i]).0)
                    && self@.removes[*listed@[i].0] == *listed@[i].1,
            forall|item: T|
                self@.removes.contains_key(item) ==> exists|i: int|
                    0 <= i < listed@.len() && *(#[trigger] listed@[i]).0 == item,
            ascending_keys(listed@),
    {
        entries(&self.removes)
    }

    /// Records an add of `item` at `clock`. An add that is not later than
    /// the item's latest add changes nothing.
    pub fn insert(&mut self, item: T, clock: HybridLogicalClock)
        requires
            old(self).wf(),
        ensures
            final(self).wf(),
            final(self)@ == old(self)@.insert(item, clock),
    {
        record_clock(&mut self.adds, item, clock);
    }

    /// Records a remove of `item` at `clock`. A remove that is not later
    /// than the item's latest remove changes nothing.
    pub fn remove(&mut self, item: T, clock: HybridLogicalClock)
        requires
            old(self).wf(),
        ensures
            final(self).wf(),
            final(self)@ == old(self)@.remove(item, clock),
    {
        record_clock(&mut self.removes, item, clock);
    }

    /// Whether `item` is a member.
    pub fn contains(&self, item: &T) -> (member: bool)
        requires
            self.wf(),
        ensures
            member == self@.contains(*item),
    {
        match self.adds.get(item) {
            Some(added) => match self.removes.get(item) {
                Some(removed) => removed.precedes(added),
                None => true,
            },
            None => false,
        }
    }
}

impl<T: Ord> Merge for LWWSet<T> {
    closed spec fn wf(&self) -> bool {
        obeys_cmp::<T>()
    }

    open spec fn join(a: LWWSetView<T>, b: LWWSetView<T>) -> LWWSetView<T> {
        a.join(b)
    }

    fn merge_mut(&mut self, other: Self) {
        record_all(&mut self.adds, other.adds);
        record_all(&mut self.removes, other.removes);
    }
}

impl<T: Ord> Default for LWWSet<T> {
    fn default() -> (set: Self)
        ensures
            set@ == LWWSetView::<T>::empty(),
            obeys_cmp::<T>() ==> set.wf(),
    {
        let set = LWWSet { adds: BTreeMap::new(), removes: BTreeMap::new() };
        assert(set@ =~= LWWSetView::<T>::empty());
        set
    }
}

/// Taking the pointwise later clock is idempotent.
pub proof fn lemma_join_clocks_idempotent<T>(a: Map<T, HybridLogicalClock>)
    ensures
        join_clocks(a, a) == a,
{
    assert forall|item: T| a.contains_key(item) implies a[item].later(a[item]) == a[item] by {
        HybridLogicalClock::lemma_before_irreflexive(a[item]);
    }
    assert(join_clocks(a, a) =~= a);
}

/// Taking the pointwise later clock is commutative.
pub proof fn lemma_join_clocks_commutative<T>(
    a: Map<T, HybridLogicalClock>,
    b: Map<T, HybridLogicalClock>,
)
    ensures
        join_clocks(a, b) == join_clocks(b, a),
{
    assert forall|item: T| a.contains_key(item) && b.contains_key(item) implies a[item].later(
        b[item],
    ) == b[item].later(a[item]) by {
        HybridLogicalClock::lemma_before_total(a[item], b[item]);
    }
    assert(join_clocks(a, b) =~= join_clocks(b, a));
}

/// Taking the pointwise later clock is associative.
pub proof fn lemma_join_clocks_associative<T>(
    a: Map<T, HybridLogicalClock>,
    b: Map<T, HybridLogicalClock>,
    c: Map<T, HybridLogicalClock>,
)
    ensures
        join_clocks(join_clocks(a, b), c) == join_clocks(a, join_clocks(b, c)),
{
    assert forall|item: T|
        a.contains_key(item) && b.contains_key(item) && c.contains_key(item) implies a[item].later(
        b[item],
    ).later(c[item]) == a[item].later(b[item].later(c[item])) by {
        HybridLogicalClock::lemma_before_total(a[item], b[item]);
        HybridLogicalClock::lemma_before_total(b[item], c[item]);
        HybridLogicalClock::lemma_before_total(a[item], c[item]);
        if a[item].before(b[item]) && b[item].before(c[item]) {
            HybridLogicalClock::lemma_before_transitive(a[item], b[item], c[item]);
        }
    }
    assert(join_clocks(join_clocks(a, b), c) =~= join_clocks(a, join_clocks(b, c)));
}

impl<T: Ord> MergeLaws for LWWSet<T> {
    proof fn join_idempotent(a: Self) {
        lemma_join_clocks_idempotent(a@.adds);
        lemma_join_clocks_idempotent(a@.removes);
    }

    proof fn join_commutative(a: Self, b: Self) {
        lemma_join_clocks_commutative(a@.adds, b@.adds);
        lemma_join_clocks_commutative(a@.removes, b@.removes);
    }

    proof fn join_associative(a: Self, b: Self, c: Self) {
        lemma_join_clocks_associative(a@.adds, b@.adds, c@.adds);
        lemma_join_clocks_associative(a@.removes, b@.removes, c@.removes);
    }
}

impl<T: Ord> LWWSet<T> {
    /// A remove that is later than every add of the item so far takes the
    /// item out of the set.
    pub proof fn lemma_later_remove_wins(
        set: LWWSetView<T>,
        item: T,
        added: HybridLogicalClock,
        removed: HybridLogicalClock,
    )
        requires
            set.adds.contains_key(item) ==> !added.before(set.adds[item]),
            added.before(removed),
        ensures
            !set.insert(item, added).remove(item, removed).contains(item),
    {
        let after = set.insert(item, added).remove(item, removed);
        HybridLogicalClock::lemma_before_total(added, removed);
        if set.adds.contains_key(item) {
            HybridLogicalClock::lemma_before_total(set.adds[item], added);
        }
        if set.removes.contains_key(item) && !set.removes[item].before(removed) {
            HybridLogicalClock::lemma_before_total(set.removes[item], removed);
            if removed.before(set.removes[item]) {
                HybridLogicalClock::lemma_before_transitive(added, removed, set.removes[item]);
            }
            HybridLogicalClock::lemma_before_total(added, set.removes[item]);
        }
    }

    /// An add that is later than every remove of the item so far puts the
    /// item into the set, removed before or not.
    pub proof fn lemma_later_add_wins(set: LWWSetView<T>, item: T, added: HybridLogicalClock)
        requires
            set.removes.contains_key(item) ==> set.removes[item].before(added),
        ensures
            set.insert(item, added).contains(item),
    {
        if set.adds.contains_key(item) && !set.adds[item].before(added) {
            HybridLogicalClock::lemma_before_total(set.adds[item], added);
            if set.removes.contains_key(item) && added.before(set.adds[item]) {
                HybridLogicalClock::lemma_before_transitive(
                    set.removes[item],
                    added,
                    set.adds[item],
                );
            }
        }
    }

    /// An item that is added and then removed at a later clock is not a
    /// member; added once more at a clock later still, it is a member again.
    pub proof fn lemma_remove_then_add_again(
        item: T,
        first: HybridLogicalClock,
        second: HybridLogicalClock,
        third: HybridLogicalClock,
    )
        requires
            first.before(second),
            second.before(third),
        ensures
            LWWSetView::<T>::empty().insert(item, first).contains(item),
            !LWWSetView::<T>::empty().insert(item, first).remove(item, second).contains(item),
            LWWSetView::<T>::empty().insert(item, first).remove(item, second).insert(
                item,
                third,
            ).contains(item),
    {
        let added = LWWSetView::<T>::empty().insert(item, first);
        Self::lemma_later_remove_wins(LWWSetView::<T>::empty(), item, first, second);
        Self::lemma_later_add_wins(added.remove(item, second), item, third);
    }

    /// Where one replica adds an item to an empty set and another removes it
    /// from an empty set at a later clock, merging either replica into the
    /// other gives one and the same state, and the item is not a member of it.
    pub proof fn lemma_concurrent_remove_wins(
        item: T,
        added: HybridLogicalClock,
        removed: HybridLogicalClock,
    )
        requires
            added.before(removed),
        ensures
            ({
                let adding = LWWSetView::<T>::empty().insert(item, added);
                let removing = LWWSetView::<T>::empty().remove(item, removed);
                &&& adding.join(removing) == removing.join(adding)
                &&& !adding.join(removing).contains(item)
                &&& adding.join(removing).adds == map![item => added]
                &&& adding.join(removing).removes == map![item => removed]
            }),
    {
        let adding = LWWSetView::<T>::empty().insert(item, added);
        let removing = LWWSetView::<T>::empty().remove(item, removed);
        lemma_join_clocks_commutative(adding.adds, removing.adds);
        lemma_join_clocks_commutative(adding.removes, removing.removes);
        HybridLogicalClock::lemma_before_total(added, removed);
        assert(adding.join(removing).adds =~= map![item => added]);
        assert(adding.join(removing).removes =~= map![item => removed]);
    }

    /// Whether an item is a member after a merge depends on its latest add
    /// and its latest remove on either side, and on nothing else.
    pub proof fn lemma_join_membership(a: LWWSetView<T>, b: LWWSetView<T>, item: T)
        ensures
            a.join(b).contains(item) == b.join(a).contains(item),
            a.join(b).adds.contains_key(item) == (a.adds.contains_key(item) || b.adds.contains_key(
                item,
            )),
            a.join(b).removes.contains_key(item) == (a.removes.contains_key(item)
                || b.removes.contains_key(item)),
    {
        lemma_join_clocks_commutative(a.adds, b.adds);
        lemma_join_clocks_commutative(a.removes, b.removes);
    }
}

} // verus!
