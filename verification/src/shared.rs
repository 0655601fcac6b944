//! The aggregate store that workers write to directly: a sharded concurrent
//! map from category to aggregate.

use vstd::prelude::*;
use std::sync::Arc;
use dashmap::DashMap;
use crate::register::{LogRegister, Tally};
use crate::scan::{deltas_view, Delta};
use crate::parser::{
    budget_of, partition, partitioned_deltas, scan_worker, workers_deltas, ParseError,
};
use crate::store::{
    credit, fits, fold_deltas, lemma_fold_concat, lemma_fold_keeps_overflow, lemma_fold_one,
    lemma_no_room_overflows, tally_of,
};

verus! {

/// `dashmap::DashMap`, a concurrent hash map. Its values are opaque here:
/// what one holds is known only through `shared_contents`.
#[verifier::external_type_specification]
#[verifier::external_body]
#[verifier::reject_recursive_types(K)]
#[verifier::reject_recursive_types(V)]
#[verifier::reject_recursive_types(S)]
pub struct ExDashMap<K, V, S>(dashmap::DashMap<K, V, S>);

/// The shared map from category to aggregate.
pub type SharedMap = DashMap<String, LogRegister>;

/// The entries that a shared map holds.
pub uninterp spec fn shared_contents(map: SharedMap) -> Map<Seq<char>, LogRegister>;

/// The aggregates that a shared map holds, by category.
pub open spec fn shared_totals(map: SharedMap) -> Map<Seq<char>, Tally> {
    Map::new(
        |k: Seq<char>| shared_contents(map).contains_key(k),
        |k: Seq<char>| shared_contents(map)[k]@,
    )
}

/// Calls `DashMap::new`. Trusted: the new map has no entry.
#[verifier::external_body]
fn shared_new() -> (fresh: SharedMap)
    ensures
        shared_contents(fresh).dom() == Set::<Seq<char>>::empty(),
{
    DashMap::new()
}

/// Calls `DashMap::get` and copies the value out of the guard. Trusted: the
/// result is the entry stored under `key`, or `None` if there is none.
#[verifier::external_body]
fn shared_get(map: &SharedMap, key: &str) -> (r: Option<LogRegister>)
    ensures
        r.is_some() == shared_contents(*map).contains_key(key@),
        r.is_some() ==> r.unwrap() == shared_contents(*map)[key@],
{
    map.get(key).map(|entry| *entry.value())
}

/// Calls `DashMap::insert`. Trusted: afterwards the map holds `value` under
/// `key` and every other entry as before.
#[verifier::external_body]
fn shared_insert(map: &mut SharedMap, key: String, value: LogRegister)
    ensures
        shared_contents(*final(map)) == shared_contents(*old(map)).insert(key@, value),
{
    map.insert(key, value);
}

/// Whether the aggregate that the shared map holds for `category` can take
/// `delta` without leaving the range of its counters.
pub open spec fn shared_room_for(map: SharedMap, category: Seq<char>, delta: LogRegister) -> bool {
    shared_totals(map).contains_key(category) ==> {
        &&& shared_totals(map)[category].lines + delta.counter <= u32::MAX
        &&& shared_totals(map)[category].bytes + delta.num_of_bytes <= u64::MAX
    }
}

/// Merges `delta` into the aggregate that the shared map holds for
/// `category`, which starts from zero if the category is new. Where the
/// counters have no room for the delta, the map stays as it is.
pub fn merge_shared(map: &mut SharedMap, category: String, delta: LogRegister) -> (done: bool)
    ensures
        done == shared_room_for(*old(map), category@, delta),
        done ==> shared_totals(*final(map)) == credit(
            shared_totals(*old(map)),
            (category@, delta@),
        ),
        !done ==> shared_contents(*final(map)) == shared_contents(*old(map)),
{
    let ghost before = shared_totals(*map);
    let mut value = match shared_get(map, category.as_str()) {
        Some(found) => found,
        None => LogRegister::zero(),
    };
    if value.counter > u32::MAX - delta.counter || value.num_of_bytes > u64::MAX
        - delta.num_of_bytes {
        return false;
    }
    value.add_assign(delta);
    shared_insert(map, category, value);
    proof {
        assert(shared_totals(*map) =~= credit(before, (category@, delta@)));
    }
    true
}

/// Merges a worker's deltas into the shared map, first to last, and stops
/// at the first delta that the counters have no room for. Returns how many
/// deltas were merged: all of them exactly when the aggregates of the whole
/// list fit their counters. The deltas merged before a stop stay merged.
pub fn merge_all_shared(map: &mut SharedMap, deltas: &Vec<(String, LogRegister)>) -> (merged: usize)
    ensures
        merged <= deltas@.len(),
        shared_totals(*final(map)) == fold_deltas(
            shared_totals(*old(map)),
            deltas_view(deltas@).take(merged as int),
        ),
        (merged == deltas@.len()) == fits(
            fold_deltas(shared_totals(*old(map)), deltas_view(deltas@)),
        ),
        merged < deltas@.len() ==> !shared_room_for(
            *final(map),
            deltas@[merged as int].0@,
            deltas@[merged as int].1,
        ),
{
    let ghost all = deltas_view(deltas@);
    let ghost start = shared_totals(*map);
    let mut i: usize = 0;
    proof {
        assert(all.skip(0) =~= all);
        assert(all.take(0) =~= Seq::<Delta>::empty());
    }
    while i < deltas.len()
        invariant
            i <= deltas@.len(),
            all == deltas_view(deltas@),
            start == shared_totals(*old(map)),
            shared_totals(*map) == fold_deltas(start, all.take(i as int)),
            fold_deltas(shared_totals(*map), all.skip(i as int)) == fold_deltas(start, all),
        decreases deltas@.len() - i,
    {
        let category: String = deltas[i].0.clone();
        let delta: LogRegister = deltas[i].1;
        proof {
            let rest = all.skip(i as int);
            assert(rest[0] == (category@, delta@));
            assert(rest.drop_first() =~= all.skip(i + 1));
            assert(all.take(i + 1) =~= all.take(i as int) + seq![(category@, delta@)]);
            lemma_fold_concat(start, all.take(i as int), seq![(category@, delta@)]);
            lemma_fold_one(shared_totals(*map), (category@, delta@));
            if !shared_room_for(*map, category@, delta) {
                lemma_no_room_overflows(
                    shared_totals(*map),
                    (category@, delta@),
                    all.skip(i + 1),
                );
            }
        }
        if !merge_shared(map, category, delta) {
            return i;
        }
        i += 1;
    }
    proof {
        assert(fits(shared_totals(*map)));
        assert(all.take(i as int) =~= all);
    }
    i
}

/// Parses `data` with `num_of_thread` workers that write to one shared map:
/// worker by worker, the deltas of each partition are merged into the map as
/// the worker yields them. The parse fails without a worker, and when an
/// aggregate would not fit its counters.
pub fn multi_thread_parser_dashmap(num_of_thread: u8, data: &[u8]) -> (r: Result<
    Arc<SharedMap>,
    ParseError,
>)
    ensures
        r.is_ok() == (num_of_thread >= 1 && fits(
            tally_of(partitioned_deltas(data@, num_of_thread as int)),
        )),
        r.is_ok() ==> shared_totals(*r.unwrap()) == tally_of(
            partitioned_deltas(data@, num_of_thread as int),
        ),
        r matches Err(e) ==> e == if num_of_thread == 0 {
            ParseError::NoWorkers
        } else {
            ParseError::Overflow
        },
{
    let ranges = match partition(data.len() as u64, num_of_thread) {
        Ok(ranges) => ranges,
        Err(e) => {
            return Err(e);
        },
    };
    let ghost budget = budget_of(data@.len() as int, num_of_thread as int);
    let mut log_register = shared_new();
    let mut idx: usize = 0;
    proof {
        assert(shared_totals(log_register) =~= Map::<Seq<char>, Tally>::empty());
    }
    while idx < ranges.len()
        invariant
            idx <= ranges@.len() == num_of_thread,
            budget == budget_of(data@.len() as int, num_of_thread as int),
            forall|i: int|
                0 <= i < num_of_thread ==> (#[trigger] ranges@[i]).byte_budget == budget
                    && ranges@[i].start_offset == i * budget,
            fold_deltas(
                shared_totals(log_register),
                workers_deltas(data@, budget, idx as int, num_of_thread as int),
            ) == tally_of(partitioned_deltas(data@, num_of_thread as int)),
        decreases ranges@.len() - idx,
    {
        let range = ranges[idx];
        let part = scan_worker(idx, range, data);
        proof {
            let later = workers_deltas(data@, budget, idx + 1, num_of_thread as int);
            lemma_fold_concat(shared_totals(log_register), deltas_view(part@), later);
            let merged = fold_deltas(shared_totals(log_register), deltas_view(part@));
            if !fits(merged) {
                lemma_fold_keeps_overflow(merged, later);
            }
        }
        if merge_all_shared(&mut log_register, &part) < part.len() {
            return Err(ParseError::Overflow);
        }
        proof {
            assert(deltas_view(part@).take(part@.len() as int) =~= deltas_view(part@));
        }
        idx += 1;
    }
    proof {
        assert(fits(shared_totals(log_register)));
    }
    Ok(Arc::new(log_register))
}

} // verus!
