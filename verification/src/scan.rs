//! Lines of a byte buffer, partitions of it, and the deltas each scan yields.

use vstd::prelude::*;
use vstd::slice::slice_subrange;
use crate::register::{LogRegister, Tally};
use crate::decode::{decode_line, line_category};

verus! {

/// The byte that ends a line.
pub const NEWLINE: u8 = 10;

/// One line's contribution: its category and the delta to merge there.
pub type Delta = (Seq<char>, Tally);

/// The position just behind the line that holds position `pos`: one past the
/// first newline at or after `pos`, or the end of the data if there is none.
pub open spec fn line_end(data: Seq<u8>, pos: int) -> int
    decreases data.len() - pos,
{
    if pos < 0 || pos >= data.len() {
        data.len() as int
    } else if data[pos] == NEWLINE {
        pos + 1
    } else {
        line_end(data, pos + 1)
    }
}

/// What one line yields: one delta of the line's length under its category
/// when the line decodes, nothing when it does not.
pub open spec fn line_deltas(line: Seq<u8>) -> Seq<Delta> {
    match line_category(line) {
        Some(category) => seq![(category, Tally::one_line(line.len()))],
        None => Seq::empty(),
    }
}

/// The deltas of every line from `pos` to the end of the data.
pub open spec fn rest_deltas(data: Seq<u8>, pos: int) -> Seq<Delta>
    decreases data.len() - pos,
{
    let end = line_end(data, pos);
    if pos < 0 || pos >= data.len() || end <= pos || end > data.len() {
        Seq::empty()
    } else {
        line_deltas(data.subrange(pos, end)) + rest_deltas(data, end)
    }
}

/// The deltas of a whole buffer, line by line.
pub open spec fn file_deltas(data: Seq<u8>) -> Seq<Delta> {
    rest_deltas(data, 0)
}

/// The deltas of a scan that stands at the line start `pos` with `consumed`
/// bytes counted so far: each line is yielded whole, and the scan stops at
/// the end of the data or once the count exceeds `budget`.
pub open spec fn budget_deltas(data: Seq<u8>, pos: int, consumed: int, budget: int) -> Seq<Delta>
    decreases data.len() - pos,
{
    let end = line_end(data, pos);
    if pos < 0 || pos >= data.len() || end <= pos || end > data.len() {
        Seq::empty()
    } else if consumed + (end - pos) > budget {
        line_deltas(data.subrange(pos, end))
    } else {
        line_deltas(data.subrange(pos, end)) + budget_deltas(
            data,
            end,
            consumed + (end - pos),
            budget,
        )
    }
}

/// Where the scan of a partition that starts at `start` reads its first line:
/// at 0 for the partition at the head of the data, behind the line that holds
/// `start` for any other.
pub open spec fn first_line(data: Seq<u8>, start: int) -> int {
    if start <= 0 {
        0
    } else if start >= data.len() {
        data.len() as int
    } else {
        line_end(data, start)
    }
}

/// The deltas of the partition `(start, budget)`: the discarded fragment
/// counts against the budget and yields nothing. Where the fragment alone
/// is longer than the budget, no line starts within the partition and the
/// partition yields nothing: the line behind the fragment belongs to the
/// partition that holds its first byte.
pub open spec fn partition_deltas(data: Seq<u8>, start: int, budget: int) -> Seq<Delta> {
    let first = first_line(data, start);
    let origin = if start >= data.len() { data.len() as int } else { start };
    if first - origin > budget {
        Seq::empty()
    } else {
        budget_deltas(data, first, first - origin, budget)
    }
}

/// The view of a list of deltas.
pub open spec fn deltas_view(deltas: Seq<(String, LogRegister)>) -> Seq<Delta> {
    deltas.map_values(|d: (String, LogRegister)| (d.0@, d.1@))
}

/// A line that starts inside the data ends behind its start, within the data.
pub proof fn lemma_line_end_bounds(data: Seq<u8>, pos: int)
    requires
        0 <= pos <= data.len(),
    ensures
        pos <= line_end(data, pos) <= data.len(),
        pos < data.len() ==> pos < line_end(data, pos),
    decreases data.len() - pos,
{
    if pos < data.len() && data[pos] != NEWLINE {
        lemma_line_end_bounds(data, pos + 1);
    }
}

/// Finds the end of the line that holds `pos`.
pub fn find_line_end(data: &[u8], pos: usize) -> (end: usize)
    requires
        pos <= data.len(),
    ensures
        end == line_end(data@, pos as int),
        pos <= end <= data.len(),
        pos < data.len() ==> pos < end,
{
    let mut i: usize = pos;
    while i < data.len()
        invariant
            pos <= i <= data.len(),
            line_end(data@, i as int) == line_end(data@, pos as int),
        decreases data.len() - i,
    {
        if data[i] == NEWLINE {
            proof {
                lemma_line_end_bounds(data@, pos as int);
            }
            return i + 1;
        }
        i += 1;
    }
    i
}

/// Pushing a delta onto a list appends its view to the list's view.
pub proof fn lemma_deltas_view_push(deltas: Seq<(String, LogRegister)>, d: (String, LogRegister))
    ensures
        deltas_view(deltas.push(d)) == deltas_view(deltas) + seq![(d.0@, d.1@)],
        deltas_view(deltas.push(d)) == deltas_view(deltas).push((d.0@, d.1@)),
{
    assert(deltas_view(deltas.push(d)) =~= deltas_view(deltas) + seq![(d.0@, d.1@)]);
    assert(deltas_view(deltas.push(d)) =~= deltas_view(deltas).push((d.0@, d.1@)));
}

/// Scans one partition of `data`: from `start_idx`, with a budget of
/// `num_of_bytes` bytes. A partition that does not start at 0 first discards
/// the bytes up to and including the next newline and counts them against
/// the budget; if they alone exceed it, the scan yields nothing. Every line
/// read after that is yielded whole, as one delta under its category if it
/// decodes and as nothing if it does not, and its length is counted; the
/// scan ends with the data or with the first line that takes the count over
/// the budget.
pub fn partially_read_file(start_idx: u64, num_of_bytes: u64, data: &[u8]) -> (deltas: Vec<
    (String, LogRegister),
>)
    ensures
        deltas_view(deltas@) == partition_deltas(data@, start_idx as int, num_of_bytes as int),
        deltas@.len() <= data@.len(),
        forall|i: int|
            0 <= i < deltas@.len() ==> (#[trigger] deltas@[i]).1.counter == 1
                && deltas@[i].1.num_of_bytes <= data@.len(),
{
    let len: usize = data.len();
    let origin: usize = if start_idx >= len as u64 {
        len
    } else {
        start_idx as usize
    };
    let first: usize = if origin == 0 {
        0
    } else {
        find_line_end(data, origin)
    };
    let mut pos: usize = first;
    let mut consumed: usize = first - origin;
    let mut deltas: Vec<(String, LogRegister)> = Vec::new();
    let mut open: bool = consumed as u64 <= num_of_bytes;
    proof {
        assert(deltas_view(deltas@) =~= Seq::<Delta>::empty());
    }
    while open && pos < len
        invariant
            len == data@.len(),
            origin <= first <= pos <= len,
            consumed == pos - origin,
            deltas@.len() <= pos - first,
            forall|i: int|
                0 <= i < deltas@.len() ==> (#[trigger] deltas@[i]).1.counter == 1
                    && deltas@[i].1.num_of_bytes <= data@.len(),
            deltas_view(deltas@) + (if open {
                budget_deltas(data@, pos as int, consumed as int, num_of_bytes as int)
            } else {
                Seq::<Delta>::empty()
            }) =~= partition_deltas(data@, start_idx as int, num_of_bytes as int),
        decreases len - pos,
    {
        let end: usize = find_line_end(data, pos);
        let line = slice_subrange(data, pos, end);
        let bytes_read: usize = end - pos;
        let ghost before = deltas@;
        let ghost here = line_deltas(data@.subrange(pos as int, end as int));
        match decode_line(line) {
            Some(category) => {
                let delta = LogRegister::new(bytes_read as u64);
                proof {
                    lemma_deltas_view_push(before, (category, delta));
                    assert(here =~= seq![(category@, delta@)]);
                }
                deltas.push((category, delta));
            },
            None => {
                assert(deltas_view(before) + here =~= deltas_view(before));
            },
        }
        assert(deltas_view(deltas@) =~= deltas_view(before) + here);
        consumed = consumed + bytes_read;
        if consumed as u64 > num_of_bytes {
            open = false;
        }
        pos = end;
    }
    deltas
}

} // verus!
