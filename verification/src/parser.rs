//! The parsers: one scan of a whole buffer, and scans by partition whose
//! deltas are folded into one aggregate map.

use vstd::prelude::*;
use vstd::slice::slice_subrange;
use crate::decode::decode_line;
pub use crate::register::LogRegister;
pub use crate::sample::prepare_sample_file;
pub use crate::shared::multi_thread_parser_dashmap;
use crate::register::Tally;
use crate::scan::{
    deltas_view, file_deltas, find_line_end, line_deltas, partially_read_file, partition_deltas,
    rest_deltas, Delta,
};
use crate::store::{
    credit, fits, fold_deltas, lemma_no_room_overflows, tally_of, AggregateMap,
};

verus! {

/// Why a parse gives no aggregates.
#[derive(Debug, Clone, Copy, PartialEq, Eq, Structural)]
pub enum ParseError {
    /// The number of workers is 0.
    NoWorkers,
    /// A category has more lines than a 32-bit counter holds, or more bytes
    /// than a 64-bit counter holds.
    Overflow,
}

/// The byte range of one worker.
#[derive(Debug, Clone, Copy, PartialEq, Eq, Structural)]
pub struct PartitionRange {
    pub start_offset: u64,
    pub byte_budget: u64,
}

/// The budget of each of `workers` workers on `size` bytes.
pub open spec fn budget_of(size: int, workers: int) -> int {
    size / workers
}

/// The deltas of worker `i`: those of its partition. With a budget of 0,
/// when the data has fewer bytes than there are workers, every partition
/// starts at 0: the first worker alone scans, and the others yield nothing.
pub open spec fn worker_deltas(data: Seq<u8>, budget: int, i: int) -> Seq<Delta> {
    if i > 0 && budget == 0 {
        Seq::empty()
    } else {
        partition_deltas(data, i * budget, budget)
    }
}

/// The deltas of the workers `from..to`, worker by worker.
pub open spec fn workers_deltas(data: Seq<u8>, budget: int, from: int, to: int) -> Seq<Delta>
    decreases to - from,
{
    if from >= to {
        Seq::empty()
    } else {
        worker_deltas(data, budget, from) + workers_deltas(data, budget, from + 1, to)
    }
}

/// The deltas that `workers` workers yield on `data`, worker by worker. Each
/// line is yielded by the one worker whose partition holds its first byte,
/// so the workers yield, in order, the lines that start up to the end of the
/// last budget. Every worker, the last one too, stops by its budget: where
/// the size of the data is no multiple of the number of workers, the lines
/// that start behind the end of the last budget are not read. With fewer
/// bytes than workers the budget is 0, and the first line alone is read,
/// once.
pub open spec fn partitioned_deltas(data: Seq<u8>, workers: int) -> Seq<Delta> {
    workers_deltas(data, budget_of(data.len() as int, workers), 0, workers)
}

/// The view of a concatenation is the concatenation of the views.
pub proof fn lemma_deltas_view_concat(a: Seq<(String, LogRegister)>, b: Seq<(String, LogRegister)>)
    ensures
        deltas_view(a + b) == deltas_view(a) + deltas_view(b),
{
    assert(deltas_view(a + b) =~= deltas_view(a) + deltas_view(b));
}

/// Folding a list that starts with `d` is folding the rest into the map that
/// has taken `d`.
pub proof fn lemma_fold_first(acc: Map<Seq<char>, Tally>, d: Delta, rest: Seq<Delta>)
    ensures
        fold_deltas(acc, seq![d] + rest) == fold_deltas(credit(acc, d), rest),
{
    let all = seq![d] + rest;
    assert(all[0] == d);
    assert(all.drop_first() =~= rest);
}

/// Splits `file_size` bytes among `worker_count` workers: each gets the
/// budget `file_size / worker_count`, and worker `i` starts at `i` budgets.
/// Without a worker there is no split.
pub fn partition(file_size: u64, worker_count: u8) -> (r: Result<Vec<PartitionRange>, ParseError>)
    ensures
        worker_count == 0 ==> r == Err::<Vec<PartitionRange>, ParseError>(ParseError::NoWorkers),
        worker_count >= 1 ==> r.is_ok() && r.unwrap()@.len() == worker_count,
        forall|i: int|
            0 <= i < worker_count ==> (#[trigger] r.unwrap()@[i]).byte_budget == budget_of(
                file_size as int,
                worker_count as int,
            ) && r.unwrap()@[i].start_offset == i * budget_of(
                file_size as int,
                worker_count as int,
            ),
{
    if worker_count == 0 {
        return Err(ParseError::NoWorkers);
    }
    let budget: u64 = file_size / (worker_count as u64);
    let mut ranges: Vec<PartitionRange> = Vec::new();
    let mut start: u64 = 0;
    let mut i: u8 = 0;
    proof {
        assert(worker_count * budget <= file_size) by (nonlinear_arith)
            requires
                worker_count >= 1,
                budget == file_size / (worker_count as u64),
        ;
    }
    while i < worker_count
        invariant
            i <= worker_count,
            budget == budget_of(file_size as int, worker_count as int),
            worker_count * budget <= file_size,
            start == i * budget,
            ranges@.len() == i,
            forall|j: int|
                0 <= j < i ==> (#[trigger] ranges@[j]).byte_budget == budget
                    && ranges@[j].start_offset == j * budget,
        decreases worker_count - i,
    {
        ranges.push(PartitionRange { start_offset: start, byte_budget: budget });
        proof {
            assert((i + 1) * budget == i * budget + budget) by (nonlinear_arith);
            assert((i + 1) * budget <= worker_count * budget) by (nonlinear_arith)
                requires
                    i + 1 <= worker_count,
            ;
        }
        start = start + budget;
        i += 1;
    }
    Ok(ranges)
}

/// Scans the partition of the worker `index`. With a budget of 0 every
/// partition starts at 0, and only the first worker scans.
pub fn scan_worker(index: usize, range: PartitionRange, data: &[u8]) -> (deltas: Vec<
    (String, LogRegister),
>)
    ensures
        deltas_view(deltas@) == if index > 0 && range.byte_budget == 0 {
            Seq::<Delta>::empty()
        } else {
            partition_deltas(data@, range.start_offset as int, range.byte_budget as int)
        },
{
    if index > 0 && range.byte_budget == 0 {
        let idle: Vec<(String, LogRegister)> = Vec::new();
        proof {
            assert(deltas_view(idle@) =~= Seq::<Delta>::empty());
        }
        idle
    } else {
        partially_read_file(range.start_offset, range.byte_budget, data)
    }
}

/// Folds a list of deltas into a new map, first to last. The fold fails when
/// an aggregate of the result would not fit its counters.
pub fn fold_into_map(deltas: &Vec<(String, LogRegister)>) -> (r: Result<AggregateMap, ParseError>)
    ensures
        r.is_ok() == fits(tally_of(deltas_view(deltas@))),
        r.is_ok() ==> r.unwrap().wf() && r.unwrap()@ == tally_of(deltas_view(deltas@)),
        r matches Err(e) ==> e == ParseError::Overflow,
{
    let mut map = AggregateMap::new();
    let mut i: usize = 0;
    let ghost all = deltas_view(deltas@);
    proof {
        assert(all.skip(0) =~= all);
    }
    while i < deltas.len()
        invariant
            i <= deltas@.len(),
            all == deltas_view(deltas@),
            map.wf(),
            fold_deltas(map@, all.skip(i as int)) == tally_of(all),
        decreases deltas@.len() - i,
    {
        let category: String = deltas[i].0.clone();
        let delta: LogRegister = deltas[i].1;
        proof {
            let rest = all.skip(i as int);
            assert(rest[0] == (category@, delta@));
            assert(rest.drop_first() =~= all.skip(i + 1));
            if !map.room_for(category@, delta) {
                lemma_no_room_overflows(map@, (category@, delta@), all.skip(i + 1));
            }
        }
        if !map.try_merge(category, delta) {
            return Err(ParseError::Overflow);
        }
        i += 1;
    }
    proof {
        map.lemma_fits();
    }
    Ok(map)
}

/// Parses a whole buffer line by line, in one pass: every line that decodes
/// adds one to its category's counter and its length, newline included, to
/// the category's bytes. A line that does not decode is skipped. The parse
/// fails when an aggregate would not fit its counters.
pub fn single_thread_parser(data: &[u8]) -> (r: Result<AggregateMap, ParseError>)
    ensures
        r.is_ok() == fits(tally_of(file_deltas(data@))),
        r.is_ok() ==> r.unwrap().wf() && r.unwrap()@ == tally_of(file_deltas(data@)),
        r matches Err(e) ==> e == ParseError::Overflow,
{
    let mut map = AggregateMap::new();
    let mut pos: usize = 0;
    while pos < data.len()
        invariant
            pos <= data@.len(),
            map.wf(),
            fold_deltas(map@, rest_deltas(data@, pos as int)) == tally_of(file_deltas(data@)),
        decreases data@.len() - pos,
    {
        let end: usize = find_line_end(data, pos);
        let line = slice_subrange(data, pos, end);
        let ghost rest = rest_deltas(data@, end as int);
        match decode_line(line) {
            Some(category) => {
                let delta = LogRegister::new((end - pos) as u64);
                proof {
                    assert(line_deltas(line@) =~= seq![(category@, delta@)]);
                    lemma_fold_first(map@, (category@, delta@), rest);
                    if !map.room_for(category@, delta) {
                        lemma_no_room_overflows(map@, (category@, delta@), rest);
                    }
                }
                if !map.try_merge(category, delta) {
                    return Err(ParseError::Overflow);
                }
            },
            None => {
                assert(line_deltas(line@) + rest =~= rest);
            },
        }
        pos = end;
    }
    proof {
        map.lemma_fits();
    }
    Ok(map)
}

/// Collects the deltas of `num_of_thread` workers on `data`, worker by
/// worker: worker `i` scans the partition that starts at `i` budgets, the
/// budget being the size of the data divided by the number of workers.
pub fn collect_deltas(num_of_thread: u8, data: &[u8]) -> (r: Result<
    Vec<(String, LogRegister)>,
    ParseError,
>)
    ensures
        r.is_ok() == (num_of_thread >= 1),
        r.is_ok() ==> deltas_view(r.unwrap()@) == partitioned_deltas(
            data@,
            num_of_thread as int,
        ),
        r matches Err(e) ==> e == ParseError::NoWorkers,
{
    let ranges = match partition(data.len() as u64, num_of_thread) {
        Ok(ranges) => ranges,
        Err(e) => {
            return Err(e);
        },
    };
    let ghost budget = budget_of(data@.len() as int, num_of_thread as int);
    let mut queue: Vec<(String, LogRegister)> = Vec::new();
    let mut idx: usize = 0;
    proof {
        assert(deltas_view(queue@) =~= Seq::<Delta>::empty());
    }
    while idx < ranges.len()
        invariant
            idx <= ranges@.len() == num_of_thread,
            budget == budget_of(data@.len() as int, num_of_thread as int),
            forall|i: int|
                0 <= i < num_of_thread ==> (#[trigger] ranges@[i]).byte_budget == budget
                    && ranges@[i].start_offset == i * budget,
            deltas_view(queue@) + workers_deltas(data@, budget, idx as int, num_of_thread as int)
                =~= partitioned_deltas(data@, num_of_thread as int),
        decreases ranges@.len() - idx,
    {
        let range = ranges[idx];
        let mut part = scan_worker(idx, range, data);
        proof {
            lemma_deltas_view_concat(queue@, part@);
        }
        queue.append(&mut part);
        idx += 1;
    }
    Ok(queue)
}

/// Parses `data` with `num_of_thread` workers that hand their deltas to one
/// reducer: the deltas of all partitions are queued, worker by worker, and
/// folded into one map. The parse fails without a worker, and when an
/// aggregate would not fit its counters.
pub fn multi_thread_parser_channel(num_of_thread: u8, data: &[u8]) -> (r: Result<
    AggregateMap,
    ParseError,
>)
    ensures
        r.is_ok() == (num_of_thread >= 1 && fits(
            tally_of(partitioned_deltas(data@, num_of_thread as int)),
        )),
        r.is_ok() ==> r.unwrap().wf() && r.unwrap()@ == tally_of(
            partitioned_deltas(data@, num_of_thread as int),
        ),
        r matches Err(e) ==> e == if num_of_thread == 0 {
            ParseError::NoWorkers
        } else {
            ParseError::Overflow
        },
{
    match collect_deltas(num_of_thread, data) {
        Ok(queue) => fold_into_map(&queue),
        Err(e) => Err(e),
    }
}

} // verus!
