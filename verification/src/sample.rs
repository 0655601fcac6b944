//! Sample data: random records, the lines they are written as, and the
//! aggregates that a parser must find in them.

use vstd::prelude::*;
use rand::Rng;
use crate::decode::{decode_line, line_category};
use crate::register::{LogRegister, Tally};
use crate::laws::lemma_sample_round_trip;
use crate::scan::{file_deltas, Delta, NEWLINE};
use crate::store::{fold_deltas, tally_of, within, AggregateMap};

verus! {

/// One record of a sample: the number of its category, its identifier and
/// its message.
#[derive(Debug, PartialEq, Eq)]
pub struct SampleRecord {
    pub log_type: u32,
    pub id: String,
    pub message: String,
}

/// The compact JSON text, in UTF-8, of the object that holds the string
/// `v1` under the key `k1`, `v2` under `k2` and `v3` under `k3`.
pub uninterp spec fn json_object_text(
    k1: Seq<char>,
    v1: Seq<char>,
    k2: Seq<char>,
    v2: Seq<char>,
    k3: Seq<char>,
    v3: Seq<char>,
) -> Seq<u8>;

/// The character of a digit.
pub open spec fn digit_char(d: nat) -> char {
    ((48 + d) as u8) as char
}

/// The decimal digits of a number, without leading zeros.
pub open spec fn decimal_digits(n: nat) -> Seq<char>
    decreases n,
{
    if n < 10 {
        seq![digit_char(n)]
    } else {
        decimal_digits(n / 10).push(digit_char(n % 10))
    }
}

/// The decimal text of a category's number.
pub open spec fn decimal_text(n: u32) -> Seq<char> {
    decimal_digits(n as nat)
}

/// Calls `Rng::gen_range` on `rand::thread_rng()`. Trusted: the number drawn
/// is at least `low` and less than `high`. The call stops the program where
/// the system cannot seed the generator.
#[verifier::external_body]
fn random_below(low: u32, high: u32) -> (r: u32)
    requires
        low < high,
    ensures
        low <= r < high,
{
    rand::thread_rng().gen_range(low, high)
}

/// Calls `Rng::sample_iter` on `rand::thread_rng()` with
/// `rand::distributions::Alphanumeric` and collects `size` characters.
/// Trusted: the string drawn has `size` characters.
#[verifier::external_body]
fn random_message(size: u32) -> (r: String)
    ensures
        r@.len() == size,
{
    rand::thread_rng().sample_iter(&rand::distributions::Alphanumeric).take(size as usize).collect()
}

/// Calls `uuid::Uuid::new_v4` and writes the identifier out in its
/// hyphenated form. Nothing is claimed of the text. The call stops the
/// program where the system has no random bytes to give.
#[verifier::external_body]
fn random_id() -> (r: String) {
    uuid::Uuid::new_v4().to_string()
}

/// Calls `u32::to_string`. Trusted: the result is the number in decimal
/// digits, without sign or leading zeros.
#[verifier::external_body]
fn decimal(n: u32) -> (r: String)
    ensures
        r@ == decimal_digits(n as nat),
{
    n.to_string()
}

/// Fills a `serde_json::Map` with the three strings under their keys, by
/// `Map::insert`, and calls `to_string` on the `Value::Object` of it.
/// Trusted: the bytes of the resulting JSON text are a function of the six
/// strings.
#[verifier::external_body]
fn json_object(k1: &str, v1: &str, k2: &str, v2: &str, k3: &str, v3: &str) -> (r: Vec<u8>)
    ensures
        r@ == json_object_text(k1@, v1@, k2@, v2@, k3@, v3@),
{
    let mut fields = serde_json::Map::new();
    fields.insert(k1.to_string(), serde_json::Value::from(v1));
    fields.insert(k2.to_string(), serde_json::Value::from(v2));
    fields.insert(k3.to_string(), serde_json::Value::from(v3));
    serde_json::Value::Object(fields).to_string().into_bytes()
}

/// The line that a record is written as: the JSON object with the fields
/// `type`, `id` and `message`, and a newline.
pub open spec fn record_line(log_type: Seq<char>, id: Seq<char>, message: Seq<char>) -> Seq<u8> {
    json_object_text("type"@, log_type, "id"@, id, "message"@, message).push(NEWLINE)
}

/// The line of the record `r`, whose category is its number in decimal.
pub open spec fn sample_line(r: SampleRecord) -> Seq<u8> {
    record_line(decimal_text(r.log_type), r.id@, r.message@)
}

/// The lines of a list of records, one after the other.
pub open spec fn sample_content(records: Seq<SampleRecord>) -> Seq<u8>
    decreases records.len(),
{
    if records.len() == 0 {
        Seq::empty()
    } else {
        sample_content(records.drop_last()) + sample_line(records.last())
    }
}

/// The deltas of a list of records: each record counts one line of its
/// line's length under its category.
pub open spec fn sample_deltas(records: Seq<SampleRecord>) -> Seq<Delta> {
    Seq::new(
        records.len(),
        |i: int| (decimal_text(records[i].log_type), Tally::one_line(sample_line(records[i]).len())),
    )
}

/// The records that a sample of `num_of_lines` lines may hold: categories
/// below `num_of_log_types`, messages of 1 to `max_msg_size` characters.
pub open spec fn drawn_within(
    records: Seq<SampleRecord>,
    num_of_lines: u32,
    num_of_log_types: u32,
    max_msg_size: u32,
) -> bool {
    &&& records.len() == num_of_lines
    &&& forall|i: int|
        0 <= i < records.len() ==> (#[trigger] records[i]).log_type < num_of_log_types && 1
            <= records[i].message@.len() <= max_msg_size
}

/// Writes one record as a line: the JSON object with the fields `type`,
/// `id` and `message`, and a newline.
pub fn write_record(log_type: &str, id: &str, message: &str) -> (line: Vec<u8>)
    ensures
        line@ == record_line(log_type@, id@, message@),
{
    let mut line = json_object("type", log_type, "id", id, "message", message);
    line.push(NEWLINE);
    line
}

/// Whether a record's line reads back: it holds no newline but its last
/// byte, and it decodes to the record's category.
pub open spec fn reads_back(r: SampleRecord) -> bool {
    &&& forall|i: int| 0 <= i < sample_line(r).len() - 1 ==> sample_line(r)[i] != NEWLINE
    &&& line_category(sample_line(r)) == Some(decimal_text(r.log_type))
}

/// Whether the bytes of a line before its last hold no newline.
fn no_inner_newline(line: &Vec<u8>) -> (ok: bool)
    ensures
        ok == (forall|i: int| 0 <= i < line@.len() - 1 ==> line@[i] != NEWLINE),
{
    if line.len() == 0 {
        return true;
    }
    let mut i: usize = 0;
    while i < line.len() - 1
        invariant
            1 <= line@.len(),
            i <= line@.len() - 1,
            forall|k: int| 0 <= k < i ==> line@[k] != NEWLINE,
        decreases line@.len() - i,
    {
        if line[i] == NEWLINE {
            return false;
        }
        i += 1;
    }
    true
}

/// Tests whether every record reads back: whether its line, as it is
/// written, holds no newline but the last byte and decodes to the record's
/// category.
pub fn sample_reads_back(records: &Vec<SampleRecord>) -> (ok: bool)
    ensures
        ok == (forall|i: int| 0 <= i < records@.len() ==> reads_back(#[trigger] records@[i])),
{
    let mut i: usize = 0;
    while i < records.len()
        invariant
            i <= records@.len(),
            forall|k: int| 0 <= k < i ==> reads_back(#[trigger] records@[k]),
        decreases records@.len() - i,
    {
        let log_type = decimal(records[i].log_type);
        let line = write_record(
            log_type.as_str(),
            records[i].id.as_str(),
            records[i].message.as_str(),
        );
        assert(line@ == sample_line(records@[i as int]));
        if !no_inner_newline(&line) {
            return false;
        }
        match decode_line(line.as_slice()) {
            Some(category) => {
                if !(category == log_type) {
                    return false;
                }
            },
            None => {
                return false;
            },
        }
        i += 1;
    }
    true
}

/// Writes the records out, line by line, and counts each line under its
/// category: the content of the sample and the aggregates that it holds.
pub fn render_sample(records: &Vec<SampleRecord>) -> (out: (Vec<u8>, AggregateMap))
    requires
        records@.len() <= u32::MAX,
    ensures
        out.0@ == sample_content(records@),
        out.1.wf(),
        out.1@ == tally_of(sample_deltas(records@)),
{
    let mut content: Vec<u8> = Vec::new();
    let mut log_register = AggregateMap::new();
    let ghost all = sample_deltas(records@);
    let mut i: usize = 0;
    proof {
        assert(all.skip(0) =~= all);
        assert(records@.take(0) =~= Seq::<SampleRecord>::empty());
    }
    while i < records.len()
        invariant
            i <= records@.len() <= u32::MAX,
            all == sample_deltas(records@),
            content@ == sample_content(records@.take(i as int)),
            log_register.wf(),
            within(log_register@, i as nat, content@.len()),
            fold_deltas(log_register@, all.skip(i as int)) == tally_of(all),
        decreases records@.len() - i,
    {
        let log_type = decimal(records[i].log_type);
        let mut line = write_record(log_type.as_str(), records[i].id.as_str(), records[i].message.as_str());
        let num_of_bytes: u64 = line.len() as u64;
        proof {
            let upto = records@.take(i + 1);
            assert(upto.drop_last() =~= records@.take(i as int));
            assert(upto.last() == records@[i as int]);
            let rest = all.skip(i as int);
            assert(rest[0] == (log_type@, Tally::one_line(num_of_bytes as nat)));
            assert(rest.drop_first() =~= all.skip(i + 1));
        }
        content.append(&mut line);
        assert(content.len() <= usize::MAX);
        log_register.merge(log_type, LogRegister::new(num_of_bytes));
        i += 1;
    }
    proof {
        assert(records@.take(i as int) =~= records@);
    }
    (content, log_register)
}

/// Writes the records out as `render_sample` does, if every record reads
/// back, and gives nothing if one does not. The sample that is given makes
/// the round trip: one scan of the content finds the aggregates that the
/// sample was written with.
pub fn render_checked_sample(records: &Vec<SampleRecord>) -> (out: Option<(Vec<u8>, AggregateMap)>)
    requires
        records@.len() <= u32::MAX,
    ensures
        out.is_some() == (forall|i: int|
            0 <= i < records@.len() ==> reads_back(#[trigger] records@[i])),
        out.is_some() ==> {
            &&& out.unwrap().0@ == sample_content(records@)
            &&& out.unwrap().1.wf()
            &&& out.unwrap().1@ == tally_of(sample_deltas(records@))
            &&& out.unwrap().1@ == tally_of(file_deltas(out.unwrap().0@))
        },
{
    if sample_reads_back(records) {
        proof {
            lemma_sample_round_trip(records@);
        }
        Some(render_sample(records))
    } else {
        None
    }
}

/// Draws `num_of_lines` records at random: the category of each is a number
/// below `num_of_log_types`, its message 1 to `max_msg_size` random letters
/// and digits, its identifier a random UUID.
pub fn draw_sample(num_of_lines: u32, num_of_log_types: u32, max_msg_size: u32) -> (records: Vec<
    SampleRecord,
>)
    requires
        num_of_lines > 0 ==> num_of_log_types >= 1 && 1 <= max_msg_size < u32::MAX,
    ensures
        drawn_within(records@, num_of_lines, num_of_log_types, max_msg_size),
{
    let mut records: Vec<SampleRecord> = Vec::new();
    let mut n: u32 = 0;
    while n < num_of_lines
        invariant
            n <= num_of_lines,
            num_of_lines > 0 ==> num_of_log_types >= 1 && 1 <= max_msg_size < u32::MAX,
            drawn_within(records@, n, num_of_log_types, max_msg_size),
        decreases num_of_lines - n,
    {
        let log_type = random_below(0, num_of_log_types);
        let id = random_id();
        let msg_size = random_below(1, max_msg_size + 1);
        let message = random_message(msg_size);
        records.push(SampleRecord { log_type, id, message });
        n += 1;
    }
    records
}

/// Draws `num_of_lines` records at random and writes them out: the category
/// of each is a number below `num_of_log_types`, its message 1 to
/// `max_msg_size` random letters and digits, its identifier a random UUID.
/// Returns the content of the sample and the aggregates that it holds. A
/// sample with a line needs a category to draw from and a largest message
/// size of at least 1 and below `u32::MAX`.
pub fn prepare_sample_file(num_of_lines: u32, num_of_log_types: u32, max_msg_size: u32) -> (out: (
    Vec<u8>,
    AggregateMap,
))
    requires
        num_of_lines > 0 ==> num_of_log_types >= 1 && 1 <= max_msg_size < u32::MAX,
    ensures
        out.1.wf(),
        exists|records: Seq<SampleRecord>|
            {
                &&& drawn_within(records, num_of_lines, num_of_log_types, max_msg_size)
                &&& out.0@ == sample_content(records)
                &&& out.1@ == tally_of(#[trigger] sample_deltas(records))
            },
{
    let records = draw_sample(num_of_lines, num_of_log_types, max_msg_size);
    let out = render_sample(&records);
    proof {
        assert(drawn_within(records@, num_of_lines, num_of_log_types, max_msg_size));
        assert(out.1@ == tally_of(sample_deltas(records@)));
    }
    out
}

} // verus!
