//! The aggregate map: one aggregate per category, merged delta by delta.

use vstd::prelude::*;
use vstd::hash_map::StringHashMap;
use crate::register::{LogRegister, Tally};
use crate::scan::Delta;

verus! {

/// The aggregates after one more delta: the delta is merged into its
/// category's aggregate, which starts from zero when the category is new.
pub open spec fn credit(acc: Map<Seq<char>, Tally>, d: Delta) -> Map<Seq<char>, Tally> {
    let previous = if acc.contains_key(d.0) {
        acc[d.0]
    } else {
        Tally::zero()
    };
    acc.insert(d.0, previous.plus(d.1))
}

/// The aggregates after merging a list of deltas into `acc`, first to last.
pub open spec fn fold_deltas(acc: Map<Seq<char>, Tally>, deltas: Seq<Delta>) -> Map<
    Seq<char>,
    Tally,
>
    decreases deltas.len(),
{
    if deltas.len() == 0 {
        acc
    } else {
        fold_deltas(credit(acc, deltas[0]), deltas.drop_first())
    }
}

/// The aggregates of a list of deltas.
pub open spec fn tally_of(deltas: Seq<Delta>) -> Map<Seq<char>, Tally> {
    fold_deltas(Map::empty(), deltas)
}

/// Every aggregate in `acc` counts at most `lines` lines and `bytes` bytes.
pub open spec fn within(acc: Map<Seq<char>, Tally>, lines: nat, bytes: nat) -> bool {
    forall|k: Seq<char>| #[trigger]
        acc.contains_key(k) ==> acc[k].lines <= lines && acc[k].bytes <= bytes
}

/// Folding a single delta is merging it.
pub proof fn lemma_fold_one(acc: Map<Seq<char>, Tally>, d: Delta)
    ensures
        fold_deltas(acc, seq![d]) == credit(acc, d),
{
    assert(seq![d].drop_first() =~= Seq::<Delta>::empty());
    assert(fold_deltas(credit(acc, d), Seq::<Delta>::empty()) == credit(acc, d));
}

/// Folding a concatenation is folding its second part into the fold of its first.
pub proof fn lemma_fold_concat(acc: Map<Seq<char>, Tally>, a: Seq<Delta>, b: Seq<Delta>)
    ensures
        fold_deltas(acc, a + b) == fold_deltas(fold_deltas(acc, a), b),
    decreases a.len(),
{
    if a.len() == 0 {
        assert(a + b =~= b);
    } else {
        assert((a + b)[0] == a[0]);
        assert((a + b).drop_first() =~= a.drop_first() + b);
        lemma_fold_concat(credit(acc, a[0]), a.drop_first(), b);
    }
}

/// Every aggregate in `acc` is within the range of its counters: 32 bits for
/// the lines, 64 bits for the bytes.
pub open spec fn fits(acc: Map<Seq<char>, Tally>) -> bool {
    within(acc, u32::MAX as nat, u64::MAX as nat)
}

/// Folding deltas into a map keeps its categories and lets no aggregate shrink.
pub proof fn lemma_fold_grows(acc: Map<Seq<char>, Tally>, deltas: Seq<Delta>)
    ensures
        forall|k: Seq<char>| #[trigger]
            acc.contains_key(k) ==> fold_deltas(acc, deltas).contains_key(k) && acc[k].lines
                <= fold_deltas(acc, deltas)[k].lines && acc[k].bytes <= fold_deltas(
                acc,
                deltas,
            )[k].bytes,
    decreases deltas.len(),
{
    if deltas.len() > 0 {
        lemma_fold_grows(credit(acc, deltas[0]), deltas.drop_first());
        assert forall|k: Seq<char>| #[trigger] acc.contains_key(k) implies fold_deltas(
            acc,
            deltas,
        ).contains_key(k) && acc[k].lines <= fold_deltas(acc, deltas)[k].lines && acc[k].bytes
            <= fold_deltas(acc, deltas)[k].bytes by {
            assert(credit(acc, deltas[0]).contains_key(k));
        }
    }
}

/// Once an aggregate has left its range, folding more deltas does not bring
/// it back.
pub proof fn lemma_fold_keeps_overflow(acc: Map<Seq<char>, Tally>, deltas: Seq<Delta>)
    requires
        !fits(acc),
    ensures
        !fits(fold_deltas(acc, deltas)),
{
    lemma_fold_grows(acc, deltas);
    let k = choose|k: Seq<char>| #[trigger]
        acc.contains_key(k) && !(acc[k].lines <= u32::MAX && acc[k].bytes <= u64::MAX);
    assert(fold_deltas(acc, deltas).contains_key(k));
}

/// A delta that its category's aggregate has no room for takes every fold
/// that starts with it out of range.
pub proof fn lemma_no_room_overflows(acc: Map<Seq<char>, Tally>, d: Delta, rest: Seq<Delta>)
    requires
        acc.contains_key(d.0),
        acc[d.0].lines + d.1.lines > u32::MAX || acc[d.0].bytes + d.1.bytes > u64::MAX,
    ensures
        !fits(fold_deltas(credit(acc, d), rest)),
{
    assert(credit(acc, d).contains_key(d.0));
    lemma_fold_keeps_overflow(credit(acc, d), rest);
}

/// Whether `key` occurs in `names`.
pub open spec fn listed(names: Seq<String>, key: Seq<char>) -> bool {
    exists|i: int| 0 <= i < names.len() && (#[trigger] names[i])@ == key
}

/// A mapping from category to aggregate, with the categories in the order in
/// which they were first seen. The table is std's `HashMap<String, _>` under
/// vstd's `StringHashMap`, which states what its methods do to the map.
pub struct AggregateMap {
    table: StringHashMap<LogRegister>,
    names: Vec<String>,
}

impl View for AggregateMap {
    type V = Map<Seq<char>, Tally>;

    closed spec fn view(&self) -> Map<Seq<char>, Tally> {
        Map::new(|k: Seq<char>| self.table@.contains_key(k), |k: Seq<char>| self.table@[k]@)
    }
}

impl AggregateMap {
    /// The invariant: the list of names holds each category of the map once.
    pub closed spec fn wf(&self) -> bool {
        &&& self.table@.dom().finite()
        &&& forall|i: int|
            0 <= i < self.names@.len() ==> self.table@.contains_key((#[trigger] self.names@[i])@)
        &&& forall|k: Seq<char>| #[trigger]
            self.table@.contains_key(k) ==> listed(self.names@, k)
        &&& forall|i: int, j: int|
            0 <= i < j < self.names@.len() ==> (#[trigger] self.names@[i])@ != (
            #[trigger] self.names@[j])@
    }

    /// The categories as a list, in the order of their first delta.
    pub closed spec fn names(&self) -> Seq<Seq<char>> {
        self.names@.map_values(|s: String| s@)
    }

    /// Whether the aggregate of `category` can take `delta` without leaving
    /// the range of its counters.
    pub open spec fn room_for(&self, category: Seq<char>, delta: LogRegister) -> bool {
        self@.contains_key(category) ==> {
            &&& self@[category].lines + delta.counter <= u32::MAX
            &&& self@[category].bytes + delta.num_of_bytes <= u64::MAX
        }
    }

    /// The list of names holds exactly the map's categories, each once.
    pub proof fn lemma_names(&self)
        requires
            self.wf(),
        ensures
            self@.dom().finite(),
            forall|i: int| 0 <= i < self.names().len() ==> self@.contains_key(#[trigger] self.names()[i]),
            forall|k: Seq<char>| #[trigger]
                self@.contains_key(k) ==> self.names().contains(k),
            forall|i: int, j: int|
                0 <= i < j < self.names().len() ==> #[trigger] self.names()[i] != #[trigger] self.names()[j],
    {
        assert(self@.dom() =~= self.table@.dom());
        assert forall|k: Seq<char>| #[trigger] self@.contains_key(k) implies self.names().contains(k) by {
            assert(listed(self.names@, k));
            let i = choose|i: int| 0 <= i < self.names@.len() && (#[trigger] self.names@[i])@ == k;
            assert(self.names()[i] == k);
        }
    }

    /// Every aggregate of a map is within the range of its counters.
    pub proof fn lemma_fits(&self)
        ensures
            fits(self@),
    {
    }

    /// An empty map.
    pub fn new() -> (r: Self)
        ensures
            r.wf(),
            r@ == Map::<Seq<char>, Tally>::empty(),
            r.names() == Seq::<Seq<char>>::empty(),
    {
        let r = AggregateMap { table: StringHashMap::new(), names: Vec::new() };
        proof {
            assert(r@ =~= Map::<Seq<char>, Tally>::empty());
            assert(r.names() =~= Seq::<Seq<char>>::empty());
        }
        r
    }

    /// Merges `delta` into the aggregate of `category`, which starts from
    /// zero if the category is new.
    pub fn merge(&mut self, category: String, delta: LogRegister)
        requires
            old(self).wf(),
            old(self).room_for(category@, delta),
        ensures
            final(self).wf(),
            final(self)@ == credit(old(self)@, (category@, delta@)),
            final(self).names() == if old(self)@.contains_key(category@) {
                old(self).names()
            } else {
                old(self).names().push(category@)
            },
    {
        let ghost before = *self;
        let mut value = LogRegister::zero();
        let mut known = false;
        match self.table.get(category.as_str()) {
            Some(found) => {
                value = *found;
                known = true;
            },
            None => {},
        }
        value.add_assign(delta);
        if !known {
            self.names.push(category.clone());
        }
        self.table.insert(category, value);
        proof {
            assert(self@ =~= credit(before@, (category@, delta@)));
            if known {
                assert(self.names() =~= before.names());
            } else {
                assert(self.names() =~= before.names().push(category@));
            }
            assert forall|k: Seq<char>| #[trigger]
                self.table@.contains_key(k) implies listed(self.names@, k) by {
                if k == category@ {
                    if known {
                        assert(listed(before.names@, k));
                        let i = choose|i: int|
                            0 <= i < before.names@.len() && (#[trigger] before.names@[i])@ == k;
                        assert(self.names@[i]@ == k);
                    } else {
                        assert(self.names@[self.names@.len() - 1]@ == k);
                    }
                } else {
                    assert(listed(before.names@, k));
                    let i = choose|i: int|
                        0 <= i < before.names@.len() && (#[trigger] before.names@[i])@ == k;
                    assert(self.names@[i]@ == k);
                }
            }
        }
    }

    /// Merges `delta` into the aggregate of `category` if the counters have
    /// room for it, and leaves the map as it is if they have not.
    pub fn try_merge(&mut self, category: String, delta: LogRegister) -> (done: bool)
        requires
            old(self).wf(),
        ensures
            final(self).wf(),
            done == old(self).room_for(category@, delta),
            done ==> final(self)@ == credit(old(self)@, (category@, delta@)),
            done ==> final(self).names() == if old(self)@.contains_key(category@) {
                old(self).names()
            } else {
                old(self).names().push(category@)
            },
            !done ==> final(self)@ == old(self)@ && final(self).names() == old(self).names(),
    {
        let room = match self.table.get(category.as_str()) {
            Some(found) => found.counter <= u32::MAX - delta.counter && found.num_of_bytes
                <= u64::MAX - delta.num_of_bytes,
            None => true,
        };
        if room {
            self.merge(category, delta);
        }
        room
    }

    /// The aggregate of `category`, if the map has one.
    pub fn get(&self, category: &str) -> (r: Option<LogRegister>)
        ensures
            r.is_some() == self@.contains_key(category@),
            r.is_some() ==> r.unwrap()@ == self@[category@],
    {
        match self.table.get(category) {
            Some(found) => Some(*found),
            None => None,
        }
    }

    /// The number of categories.
    pub fn len(&self) -> (r: usize)
        requires
            self.wf(),
        ensures
            r == self@.dom().len(),
            r == self.names().len(),
    {
        proof {
            assert(self@.dom() =~= self.table@.dom());
            self.lemma_names();
            lemma_distinct_names_count(self.names(), self@.dom());
        }
        self.names.len()
    }

    /// The categories, in the order of their first delta.
    pub fn categories(&self) -> (r: &Vec<String>)
        ensures
            r@.map_values(|s: String| s@) == self.names(),
    {
        &self.names
    }
}

/// A list without repetition that holds exactly the elements of a set is as
/// long as the set is large.
pub proof fn lemma_distinct_names_count(names: Seq<Seq<char>>, keys: Set<Seq<char>>)
    requires
        forall|i: int| 0 <= i < names.len() ==> keys.contains(#[trigger] names[i]),
        forall|k: Seq<char>| #[trigger] keys.contains(k) ==> names.contains(k),
        forall|i: int, j: int| 0 <= i < j < names.len() ==> #[trigger] names[i] != #[trigger] names[j],
    ensures
        keys.finite(),
        keys.len() == names.len(),
    decreases names.len(),
{
    if names.len() == 0 {
        assert(keys =~= Set::<Seq<char>>::empty());
    } else {
        let last = names.last();
        let rest = names.drop_last();
        let fewer = keys.remove(last);
        assert forall|k: Seq<char>| #[trigger] fewer.contains(k) implies rest.contains(k) by {
            assert(names.contains(k));
            let i = choose|i: int| 0 <= i < names.len() && names[i] == k;
            assert(rest[i] == k);
        }
        assert forall|i: int| 0 <= i < rest.len() implies fewer.contains(#[trigger] rest[i]) by {
            assert(rest[i] == names[i]);
        }
        lemma_distinct_names_count(rest, fewer);
        assert(keys =~= fewer.insert(last));
    }
}

} // verus!
