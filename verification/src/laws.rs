//! What holds of the scans and of the merge, whatever the data.

use vstd::prelude::*;
use crate::register::Tally;
use crate::sample::{reads_back, sample_content, sample_deltas, sample_line, SampleRecord};
use crate::scan::{
    budget_deltas, file_deltas, first_line, lemma_line_end_bounds, line_deltas, line_end,
    partition_deltas, rest_deltas, Delta, NEWLINE,
};
use crate::parser::{budget_of, partitioned_deltas, worker_deltas, workers_deltas};
use crate::store::{
    credit, fold_deltas, lemma_fold_concat, lemma_fold_grows, lemma_fold_one, tally_of,
};

verus! {

/// Merging two deltas into a map gives the same map in either order.
pub proof fn lemma_credit_commutes(acc: Map<Seq<char>, Tally>, a: Delta, b: Delta)
    ensures
        credit(credit(acc, a), b) == credit(credit(acc, b), a),
{
    assert(credit(credit(acc, a), b) =~= credit(credit(acc, b), a));
}

/// The order in which two neighbouring deltas arrive does not change the
/// aggregates: a list of deltas and the list with two neighbours exchanged
/// fold into the same map. Any reordering of a list is a chain of such
/// exchanges.
pub proof fn lemma_fold_exchange(
    acc: Map<Seq<char>, Tally>,
    before: Seq<Delta>,
    a: Delta,
    b: Delta,
    after: Seq<Delta>,
)
    ensures
        fold_deltas(acc, before + seq![a, b] + after) == fold_deltas(
            acc,
            before + seq![b, a] + after,
        ),
{
    let reached = fold_deltas(acc, before);
    lemma_fold_concat(acc, before, seq![a, b]);
    lemma_fold_concat(acc, before + seq![a, b], after);
    lemma_fold_concat(acc, before, seq![b, a]);
    lemma_fold_concat(acc, before + seq![b, a], after);
    lemma_credit_commutes(reached, a, b);
    assert(seq![a, b] =~= seq![a] + seq![b]);
    assert(seq![b, a] =~= seq![b] + seq![a]);
    lemma_fold_concat(reached, seq![a], seq![b]);
    lemma_fold_concat(reached, seq![b], seq![a]);
    lemma_fold_one(reached, a);
    lemma_fold_one(reached, b);
    lemma_fold_one(credit(reached, a), b);
    lemma_fold_one(credit(reached, b), a);
}

/// Every position inside a line has the same line end.
pub proof fn lemma_line_end_inside(data: Seq<u8>, pos: int, at: int)
    requires
        0 <= pos <= at < line_end(data, pos),
    ensures
        line_end(data, at) == line_end(data, pos),
    decreases at - pos,
{
    lemma_line_end_bounds(data, pos);
    if pos < at {
        if data[pos] == NEWLINE {
            assert(line_end(data, pos) == pos + 1);
        } else {
            lemma_line_end_inside(data, pos + 1, at);
        }
    }
}

/// Where the scan behind position `at` reads on: behind the line that holds
/// `at`, or at the end of the data.
pub open spec fn next_line(data: Seq<u8>, at: int) -> int {
    if at >= data.len() {
        data.len() as int
    } else {
        line_end(data, at)
    }
}

/// A scan that starts at the line start `pos`, within its budget, yields the
/// lines up to the one that holds the end of the budget; the lines behind
/// that one are the rest of the data.
pub proof fn lemma_scan_then_rest(data: Seq<u8>, pos: int, origin: int, budget: int)
    requires
        0 <= origin <= pos <= origin + budget <= data.len(),
    ensures
        rest_deltas(data, pos) == budget_deltas(data, pos, pos - origin, budget) + rest_deltas(
            data,
            next_line(data, origin + budget),
        ),
    decreases data.len() - pos,
{
    let at = origin + budget;
    let tail = rest_deltas(data, next_line(data, at));
    if pos >= data.len() {
        assert(rest_deltas(data, pos) =~= budget_deltas(data, pos, pos - origin, budget) + tail);
    } else {
        lemma_line_end_bounds(data, pos);
        let end = line_end(data, pos);
        let here = line_deltas(data.subrange(pos, end));
        if end > at {
            lemma_line_end_inside(data, pos, at);
            assert(rest_deltas(data, pos) =~= here + tail);
        } else {
            lemma_scan_then_rest(data, end, origin, budget);
            let onward = budget_deltas(data, end, end - origin, budget);
            assert(here + (onward + tail) =~= (here + onward) + tail);
        }
    }
}

/// A worker with a budget of at least 1 yields the lines that start in its
/// partition: the lines from its first line up to, not including, the first
/// line of the next worker.
pub proof fn lemma_worker_yields_its_lines(data: Seq<u8>, budget: int, i: int)
    requires
        0 <= i,
        1 <= budget,
        (i + 1) * budget <= data.len(),
    ensures
        rest_deltas(data, first_line(data, i * budget)) == worker_deltas(data, budget, i)
            + rest_deltas(data, first_line(data, (i + 1) * budget)),
{
    let origin = i * budget;
    let first = first_line(data, origin);
    let onward = rest_deltas(data, first_line(data, origin + budget));
    assert((i + 1) * budget == origin + budget) by (nonlinear_arith)
        requires
            origin == i * budget,
    ;
    assert(0 <= origin) by (nonlinear_arith)
        requires
            origin == i * budget,
            0 <= i,
            1 <= budget,
    ;
    assert(next_line(data, origin + budget) == first_line(data, origin + budget));
    if i == 0 {
        assert(origin == 0);
        lemma_scan_then_rest(data, 0, 0, budget);
    } else {
        assert(origin >= 1) by (nonlinear_arith)
            requires
                origin == i * budget,
                1 <= i,
                1 <= budget,
        ;
        lemma_line_end_bounds(data, origin);
        if first - origin > budget {
            lemma_line_end_inside(data, origin, origin + budget);
            assert(worker_deltas(data, budget, i) + onward =~= onward);
        } else {
            lemma_scan_then_rest(data, first, origin, budget);
        }
    }
}

/// The workers `from..to` yield, in order and each line once, the lines from
/// the first line of worker `from` up to the first line behind the budget of
/// worker `to - 1`.
pub proof fn lemma_workers_yield_their_lines(data: Seq<u8>, budget: int, from: int, to: int)
    requires
        0 <= from <= to,
        1 <= budget,
        to * budget <= data.len(),
    ensures
        rest_deltas(data, first_line(data, from * budget)) == workers_deltas(
            data,
            budget,
            from,
            to,
        ) + rest_deltas(data, first_line(data, to * budget)),
    decreases to - from,
{
    let tail = rest_deltas(data, first_line(data, to * budget));
    if from < to {
        assert((from + 1) * budget <= to * budget) by (nonlinear_arith)
            requires
                from + 1 <= to,
                1 <= budget,
        ;
        lemma_worker_yields_its_lines(data, budget, from);
        lemma_workers_yield_their_lines(data, budget, from + 1, to);
        let here = worker_deltas(data, budget, from);
        let later = workers_deltas(data, budget, from + 1, to);
        assert(here + (later + tail) =~= (here + later) + tail);
    } else {
        assert(workers_deltas(data, budget, from, to) + tail =~= tail);
    }
}

/// With a budget of 0 no worker but the first yields anything.
pub proof fn lemma_idle_workers(data: Seq<u8>, from: int, to: int)
    requires
        1 <= from,
    ensures
        workers_deltas(data, 0, from, to) == Seq::<Delta>::empty(),
    decreases to - from,
{
    if from < to {
        lemma_idle_workers(data, from + 1, to);
        assert(workers_deltas(data, 0, from, to) =~= Seq::<Delta>::empty());
    }
}

/// Whatever the number of workers, they yield a beginning of the data's
/// lines, in order and each line once: the lines that start up to the end of
/// the last budget. The lines that no worker reads are those behind.
pub proof fn lemma_workers_read_a_prefix(data: Seq<u8>, workers: int)
    requires
        workers >= 1,
    ensures
        file_deltas(data) == partitioned_deltas(data, workers) + rest_deltas(
            data,
            next_line(data, workers * budget_of(data.len() as int, workers)),
        ),
{
    let budget = budget_of(data.len() as int, workers);
    assert(0 <= budget && workers * budget <= data.len()) by (nonlinear_arith)
        requires
            workers >= 1,
            budget == data.len() as int / workers,
    ;
    if budget == 0 {
        assert(workers * budget == 0) by (nonlinear_arith)
            requires
                budget == 0,
        ;
        lemma_idle_workers(data, 1, workers);
        lemma_scan_then_rest(data, 0, 0, 0);
        assert(workers_deltas(data, 0, 0, workers) =~= partition_deltas(data, 0, 0));
    } else {
        lemma_workers_yield_their_lines(data, budget, 0, workers);
        assert(workers * budget >= 1) by (nonlinear_arith)
            requires
                workers >= 1,
                budget >= 1,
        ;
    }
}

/// No line is counted twice: with any number of workers, every category of
/// the result is a category of the single scan, with at most as many lines
/// and bytes.
pub proof fn lemma_split_counts_no_line_twice(data: Seq<u8>, workers: int)
    requires
        workers >= 1,
    ensures
        forall|k: Seq<char>| #[trigger]
            tally_of(partitioned_deltas(data, workers)).contains_key(k) ==> tally_of(
                file_deltas(data),
            ).contains_key(k) && tally_of(partitioned_deltas(data, workers))[k].lines
                <= tally_of(file_deltas(data))[k].lines && tally_of(
                partitioned_deltas(data, workers),
            )[k].bytes <= tally_of(file_deltas(data))[k].bytes,
{
    let read = partitioned_deltas(data, workers);
    let unread = rest_deltas(
        data,
        next_line(data, workers * budget_of(data.len() as int, workers)),
    );
    lemma_workers_read_a_prefix(data, workers);
    lemma_fold_concat(Map::empty(), read, unread);
    lemma_fold_grows(tally_of(read), unread);
}

/// One worker yields the lines of the whole data, in order.
pub proof fn lemma_one_worker_reads_all(data: Seq<u8>)
    ensures
        partitioned_deltas(data, 1) == file_deltas(data),
{
    lemma_workers_read_a_prefix(data, 1);
    assert(1 * budget_of(data.len() as int, 1) == data.len());
    assert(partitioned_deltas(data, 1) + Seq::<Delta>::empty() =~= partitioned_deltas(data, 1));
}

/// The number of workers does not change the result when it divides the size
/// of the data: the workers then yield, one after the other, the lines of
/// the data in order, each line once, and so the same aggregates as one
/// worker.
pub proof fn lemma_worker_count_invariance(data: Seq<u8>, workers: int)
    requires
        workers >= 1,
        (data.len() as int) % workers == 0,
    ensures
        partitioned_deltas(data, workers) == file_deltas(data),
        partitioned_deltas(data, workers) == partitioned_deltas(data, 1),
        tally_of(partitioned_deltas(data, workers)) == tally_of(partitioned_deltas(data, 1)),
{
    let budget = budget_of(data.len() as int, workers);
    assert(workers * budget == data.len()) by (nonlinear_arith)
        requires
            workers >= 1,
            (data.len() as int) % workers == 0,
            budget == data.len() as int / workers,
    ;
    lemma_workers_read_a_prefix(data, workers);
    assert(partitioned_deltas(data, workers) + Seq::<Delta>::empty() =~= partitioned_deltas(
        data,
        workers,
    ));
    lemma_one_worker_reads_all(data);
}

/// A stretch of bytes that ends with its only newline is one line.
pub proof fn lemma_line_end_at_newline(data: Seq<u8>, pos: int, end: int)
    requires
        0 <= pos < end <= data.len(),
        data[end - 1] == NEWLINE,
        forall|i: int| pos <= i < end - 1 ==> data[i] != NEWLINE,
    ensures
        line_end(data, pos) == end,
    decreases end - pos,
{
    if data[pos] != NEWLINE {
        lemma_line_end_at_newline(data, pos + 1, end);
    }
}

/// The lines of the first `j` records are the beginning of the sample.
pub proof fn lemma_sample_prefix(records: Seq<SampleRecord>, j: int)
    requires
        0 <= j <= records.len(),
    ensures
        sample_content(records.take(j)).len() <= sample_content(records).len(),
        sample_content(records).subrange(0, sample_content(records.take(j)).len() as int)
            == sample_content(records.take(j)),
    decreases records.len() - j,
{
    let whole = sample_content(records);
    let head = sample_content(records.take(j));
    if j == records.len() {
        assert(records.take(j) =~= records);
        assert(whole.subrange(0, whole.len() as int) =~= whole);
    } else {
        lemma_sample_prefix(records, j + 1);
        let longer = records.take(j + 1);
        assert(longer.drop_last() =~= records.take(j));
        assert(longer.last() == records[j]);
        assert(sample_content(longer) == head + sample_line(records[j]));
        assert(whole.subrange(0, head.len() as int) =~= head);
    }
}

/// Behind the lines of the first `j` records, the scan of a sample finds
/// the deltas of the records from `j` on, where each of them reads back.
pub proof fn lemma_sample_reads_back_from(records: Seq<SampleRecord>, j: int)
    requires
        0 <= j <= records.len(),
        forall|i: int| 0 <= i < records.len() ==> reads_back(#[trigger] records[i]),
    ensures
        rest_deltas(sample_content(records), sample_content(records.take(j)).len() as int)
            == sample_deltas(records).skip(j),
    decreases records.len() - j,
{
    let whole = sample_content(records);
    let head = sample_content(records.take(j));
    let pos = head.len() as int;
    let all = sample_deltas(records);
    lemma_sample_prefix(records, j);
    if j == records.len() {
        assert(records.take(j) =~= records);
        assert(all.skip(j) =~= Seq::<Delta>::empty());
    } else {
        let line = sample_line(records[j]);
        let longer = records.take(j + 1);
        assert(longer.drop_last() =~= records.take(j));
        assert(longer.last() == records[j]);
        assert(sample_content(longer) == head + line);
        lemma_sample_prefix(records, j + 1);
        let end = pos + line.len();
        assert(reads_back(records[j]));
        assert forall|i: int| 0 <= i < line.len() implies whole[pos + i] == line[i] by {
            assert(whole.subrange(0, end)[pos + i] == (head + line)[pos + i]);
        }
        assert(whole.subrange(pos, end) =~= line);
        assert(line.len() >= 1 && line[line.len() - 1] == NEWLINE);
        assert(whole[pos + (line.len() - 1)] == line[line.len() - 1]);
        assert forall|i: int| pos <= i < end - 1 implies whole[i] != NEWLINE by {
            assert(whole.subrange(pos, end)[i - pos] == whole[i]);
            assert(sample_line(records[j])[i - pos] != NEWLINE);
        }
        lemma_line_end_at_newline(whole, pos, end);
        lemma_sample_reads_back_from(records, j + 1);
        assert(line_deltas(line) =~= seq![all[j]]);
        assert(seq![all[j]] + all.skip(j + 1) =~= all.skip(j));
    }
}

/// The round trip of a sample whose records read back: the scan of the
/// written sample yields the deltas of its records, so that one scan of the
/// whole and one worker both find the aggregates that the sample was written
/// with.
pub proof fn lemma_sample_round_trip(records: Seq<SampleRecord>)
    requires
        forall|i: int| 0 <= i < records.len() ==> reads_back(#[trigger] records[i]),
    ensures
        file_deltas(sample_content(records)) == sample_deltas(records),
        tally_of(file_deltas(sample_content(records))) == tally_of(sample_deltas(records)),
        tally_of(partitioned_deltas(sample_content(records), 1)) == tally_of(
            sample_deltas(records),
        ),
{
    lemma_sample_reads_back_from(records, 0);
    assert(records.take(0) =~= Seq::<SampleRecord>::empty());
    assert(sample_deltas(records).skip(0) =~= sample_deltas(records));
    lemma_one_worker_reads_all(sample_content(records));
}

} // verus!
