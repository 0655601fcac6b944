use log_parser::parser::{
    collect_deltas, fold_into_map, multi_thread_parser_channel, partition, scan_worker,
    single_thread_parser, ParseError, PartitionRange,
};
use log_parser::register::LogRegister;
use log_parser::scan::{find_line_end, partially_read_file};
use log_parser::store::AggregateMap;

fn reg(counter: u32, num_of_bytes: u64) -> Option<LogRegister> {
    Some(LogRegister { counter, num_of_bytes })
}

const THREE_LINES: &[u8] = b"{\"type\":\"a\"}\n{\"type\":\"b\"}\n{\"type\":\"a\"}\n";

const FOUR_LINES: &[u8] =
    b"{\"type\":\"a\"}\n{\"type\":\"b\"}\n{\"type\":\"a\"}\n{\"type\":\"c\"}\n";

#[test]
fn register_new_counts_one_line() {
    assert_eq!(LogRegister::new(13), LogRegister { counter: 1, num_of_bytes: 13 });
}

#[test]
fn register_zero_is_empty() {
    assert_eq!(LogRegister::zero(), LogRegister { counter: 0, num_of_bytes: 0 });
}

#[test]
fn register_add_assign_adds_both_fields() {
    let mut r = LogRegister { counter: 2, num_of_bytes: 26 };
    r.add_assign(LogRegister { counter: 3, num_of_bytes: 100 });
    assert_eq!(r, LogRegister { counter: 5, num_of_bytes: 126 });
}

#[test]
fn merge_is_commutative_on_values() {
    let d1 = LogRegister::new(7);
    let d2 = LogRegister::new(40);
    let mut left = LogRegister::zero();
    left.add_assign(d1);
    left.add_assign(d2);
    let mut right = LogRegister::zero();
    right.add_assign(d2);
    right.add_assign(d1);
    assert_eq!(left, right);
    assert_eq!(left, LogRegister { counter: 2, num_of_bytes: 47 });
}

#[test]
fn partition_splits_evenly() {
    let ranges = partition(52, 4).unwrap();
    assert_eq!(
        ranges,
        vec![
            PartitionRange { start_offset: 0, byte_budget: 13 },
            PartitionRange { start_offset: 13, byte_budget: 13 },
            PartitionRange { start_offset: 26, byte_budget: 13 },
            PartitionRange { start_offset: 39, byte_budget: 13 },
        ]
    );
}

#[test]
fn partition_truncates_the_budget() {
    let ranges = partition(39, 2).unwrap();
    assert_eq!(
        ranges,
        vec![
            PartitionRange { start_offset: 0, byte_budget: 19 },
            PartitionRange { start_offset: 19, byte_budget: 19 },
        ]
    );
    let tiny = partition(2, 3).unwrap();
    assert_eq!(tiny.len(), 3);
    assert_eq!(tiny[2], PartitionRange { start_offset: 0, byte_budget: 0 });
}

#[test]
fn line_end_is_behind_the_newline() {
    assert_eq!(find_line_end(b"ab\ncd", 0), 3);
    assert_eq!(find_line_end(b"ab\ncd", 2), 3);
    assert_eq!(find_line_end(b"ab\ncd", 3), 5);
    assert_eq!(find_line_end(b"ab\ncd", 5), 5);
}

#[test]
fn three_lines_one_worker() {
    let map = multi_thread_parser_channel(1, THREE_LINES).unwrap();
    assert_eq!(map.len(), 2);
    assert_eq!(map.get("a"), reg(2, 26));
    assert_eq!(map.get("b"), reg(1, 13));
    assert_eq!(map.get("c"), None);
}

#[test]
fn three_lines_single_thread() {
    let map = single_thread_parser(THREE_LINES).unwrap();
    assert_eq!(map.len(), 2);
    assert_eq!(map.get("a"), reg(2, 26));
    assert_eq!(map.get("b"), reg(1, 13));
    assert_eq!(map.categories(), &vec!["a".to_string(), "b".to_string()]);
}

#[test]
fn malformed_line_is_skipped() {
    let data = b"{\"type\":\"a\"}\nthis is no record\n{\"type\":\"a\"}\n";
    let map = single_thread_parser(data).unwrap();
    assert_eq!(map.len(), 1);
    assert_eq!(map.get("a"), reg(2, 26));
    assert_eq!(map.get("this is no record"), None);
}

#[test]
fn malformed_line_counts_against_the_budget() {
    let data = b"this is no record\n{\"type\":\"a\"}\n{\"type\":\"b\"}\n";
    let deltas = partially_read_file(0, 17, data);
    assert_eq!(deltas, vec![]);
    let deltas = partially_read_file(0, 18, data);
    assert_eq!(deltas, vec![("a".to_string(), LogRegister::new(13))]);
}

#[test]
fn records_without_a_string_type_are_skipped() {
    let data = b"{\"kind\":\"a\"}\n{\"type\":5}\n{\"type\":null}\n[\"a\"]\n\"a\"\n{\"type\":\"z\",\"id\":7,\"more\":[1,2]}\n";
    let map = single_thread_parser(data).unwrap();
    assert_eq!(map.len(), 1);
    assert_eq!(map.get("z"), reg(1, 33));
}

#[test]
fn category_is_the_decoded_string() {
    let data = b"  {\"id\":1, \"type\" : \"a\\u0062\\n\"}  \n";
    let map = single_thread_parser(data).unwrap();
    assert_eq!(map.get("ab\n"), reg(1, data.len() as u64));
}

#[test]
fn empty_buffer_gives_empty_map() {
    assert_eq!(single_thread_parser(b"").unwrap().len(), 0);
    assert_eq!(multi_thread_parser_channel(3, b"").unwrap().len(), 0);
    assert_eq!(partially_read_file(0, 0, b""), vec![]);
    assert_eq!(partially_read_file(5, 10, b""), vec![]);
}

#[test]
fn last_line_without_newline_is_counted() {
    let data = b"{\"type\":\"a\"}\n{\"type\":\"a\"}";
    let map = single_thread_parser(data).unwrap();
    assert_eq!(map.get("a"), reg(2, 25));
    let map = multi_thread_parser_channel(1, data).unwrap();
    assert_eq!(map.get("a"), reg(2, 25));
}

#[test]
fn straddling_line_is_counted_once() {
    // 39 bytes, two workers: the budget is 19 and the second line runs from 13 to 26.
    let first = partially_read_file(0, 19, THREE_LINES);
    assert_eq!(
        first,
        vec![("a".to_string(), LogRegister::new(13)), ("b".to_string(), LogRegister::new(13))]
    );
    let second = partially_read_file(19, 19, THREE_LINES);
    assert_eq!(second, vec![("a".to_string(), LogRegister::new(13))]);
    let map = multi_thread_parser_channel(2, THREE_LINES).unwrap();
    assert_eq!(map.len(), 2);
    assert_eq!(map.get("a"), reg(2, 26));
    assert_eq!(map.get("b"), reg(1, 13));
}

#[test]
fn line_that_starts_on_the_boundary_belongs_to_the_earlier_worker() {
    let first = partially_read_file(0, 13, FOUR_LINES);
    assert_eq!(
        first,
        vec![("a".to_string(), LogRegister::new(13)), ("b".to_string(), LogRegister::new(13))]
    );
    let second = partially_read_file(13, 13, FOUR_LINES);
    assert_eq!(second, vec![("a".to_string(), LogRegister::new(13))]);
    let last = partially_read_file(39, 13, FOUR_LINES);
    assert_eq!(last, vec![]);
}

#[test]
fn worker_count_does_not_change_the_result() {
    let one = multi_thread_parser_channel(1, FOUR_LINES).unwrap();
    for workers in [1u8, 2, 4] {
        let map = multi_thread_parser_channel(workers, FOUR_LINES).unwrap();
        assert_eq!(map.len(), 3);
        for category in ["a", "b", "c"] {
            assert_eq!(map.get(category), one.get(category));
        }
    }
    assert_eq!(one.get("a"), reg(2, 26));
    assert_eq!(one.get("b"), reg(1, 13));
    assert_eq!(one.get("c"), reg(1, 13));
    let single = single_thread_parser(FOUR_LINES).unwrap();
    for category in ["a", "b", "c"] {
        assert_eq!(single.get(category), one.get(category));
    }
}

#[test]
fn line_behind_a_line_longer_than_a_budget_is_counted_once() {
    // 40 bytes and 5 workers: the budget is 8, and the partitions that start
    // at 16 and at 24 both start inside the second line, of 14 bytes.
    let data = b"{\"type\":\"a\"}\n{\"type\":\"bb\"}\n{\"type\":\"c\"}\n";
    assert_eq!(data.len(), 40);
    assert_eq!(partially_read_file(0, 8, data), vec![("a".to_string(), LogRegister::new(13))]);
    assert_eq!(partially_read_file(8, 8, data), vec![("bb".to_string(), LogRegister::new(14))]);
    assert_eq!(partially_read_file(16, 8, data), vec![]);
    assert_eq!(partially_read_file(24, 8, data), vec![("c".to_string(), LogRegister::new(13))]);
    assert_eq!(partially_read_file(32, 8, data), vec![]);
    let whole = single_thread_parser(data).unwrap();
    for workers in [1u8, 2, 4, 5, 8, 10, 20, 40] {
        let map = multi_thread_parser_channel(workers, data).unwrap();
        assert_eq!(map.len(), 3);
        assert_eq!(map.get("a"), reg(1, 13));
        assert_eq!(map.get("bb"), reg(1, 14));
        assert_eq!(map.get("c"), reg(1, 13));
        for category in ["a", "bb", "c"] {
            assert_eq!(map.get(category), whole.get(category));
        }
    }
}

#[test]
fn no_worker_count_counts_a_line_twice() {
    let data = b"{\"type\":\"a\"}\n{\"type\":\"bb\"}\n{\"type\":\"c\"}\n{\"type\":\"a\"}\nx\n";
    let whole = single_thread_parser(data).unwrap();
    for workers in 1..=255u8 {
        let map = multi_thread_parser_channel(workers, data).unwrap();
        for category in map.categories() {
            let split = map.get(category).unwrap();
            let single = whole.get(category).unwrap();
            assert!(split.counter <= single.counter);
            assert!(split.num_of_bytes <= single.num_of_bytes);
        }
    }
}

#[test]
fn fewer_bytes_than_workers_read_the_first_line_once() {
    // 26 bytes: with more than 26 workers the budget is 0, every partition
    // starts at 0, and only the first worker scans.
    let data = b"{\"type\":\"a\"}\n{\"type\":\"b\"}\n";
    let even = multi_thread_parser_channel(26, data).unwrap();
    assert_eq!(even.get("a"), reg(1, 13));
    assert_eq!(even.get("b"), reg(1, 13));
    for workers in [27u8, 30, 255] {
        let map = multi_thread_parser_channel(workers, data).unwrap();
        assert_eq!(map.len(), 1);
        assert_eq!(map.get("a"), reg(1, 13));
        assert_eq!(map.get("b"), None);
    }
    let idle = PartitionRange { start_offset: 0, byte_budget: 0 };
    assert_eq!(scan_worker(0, idle, data), vec![("a".to_string(), LogRegister::new(13))]);
    assert_eq!(scan_worker(1, idle, data), vec![]);
    assert_eq!(scan_worker(254, idle, data), vec![]);
    let second = PartitionRange { start_offset: 13, byte_budget: 13 };
    assert_eq!(scan_worker(1, second, data), vec![]);
    let first = PartitionRange { start_offset: 0, byte_budget: 13 };
    assert_eq!(
        scan_worker(0, first, data),
        vec![("a".to_string(), LogRegister::new(13)), ("b".to_string(), LogRegister::new(13))]
    );
}

#[test]
fn collected_deltas_fold_into_the_map() {
    let queue = collect_deltas(2, THREE_LINES).unwrap();
    assert_eq!(queue.len(), 3);
    let map = fold_into_map(&queue).unwrap();
    assert_eq!(map.get("a"), reg(2, 26));
    assert_eq!(map.get("b"), reg(1, 13));
}

#[test]
fn aggregate_map_merges_by_category() {
    let mut map = AggregateMap::new();
    assert_eq!(map.len(), 0);
    map.merge("x".to_string(), LogRegister::new(5));
    map.merge("y".to_string(), LogRegister::new(6));
    map.merge("x".to_string(), LogRegister { counter: 3, num_of_bytes: 30 });
    assert_eq!(map.len(), 2);
    assert_eq!(map.get("x"), reg(4, 35));
    assert_eq!(map.get("y"), reg(1, 6));
    assert_eq!(map.get("z"), None);
    assert_eq!(map.categories(), &vec!["x".to_string(), "y".to_string()]);
}

#[test]
fn zero_workers_are_refused() {
    assert_eq!(partition(100, 0), Err(ParseError::NoWorkers));
    assert_eq!(collect_deltas(0, THREE_LINES), Err(ParseError::NoWorkers));
    assert_eq!(multi_thread_parser_channel(0, THREE_LINES).err(), Some(ParseError::NoWorkers));
    assert_eq!(multi_thread_parser_channel(0, b"").err(), Some(ParseError::NoWorkers));
}

#[test]
fn full_line_counter_is_an_overflow() {
    let deltas = vec![
        ("a".to_string(), LogRegister { counter: u32::MAX, num_of_bytes: 10 }),
        ("b".to_string(), LogRegister::new(4)),
        ("a".to_string(), LogRegister::new(4)),
    ];
    assert_eq!(fold_into_map(&deltas).err(), Some(ParseError::Overflow));
    let deltas = vec![
        ("a".to_string(), LogRegister { counter: u32::MAX - 1, num_of_bytes: 10 }),
        ("b".to_string(), LogRegister::new(4)),
        ("a".to_string(), LogRegister::new(4)),
    ];
    let map = fold_into_map(&deltas).unwrap();
    assert_eq!(map.get("a"), reg(u32::MAX, 14));
    assert_eq!(map.get("b"), reg(1, 4));
}

#[test]
fn full_byte_counter_is_an_overflow() {
    let deltas = vec![
        ("a".to_string(), LogRegister { counter: 1, num_of_bytes: u64::MAX - 3 }),
        ("a".to_string(), LogRegister::new(4)),
    ];
    assert_eq!(fold_into_map(&deltas).err(), Some(ParseError::Overflow));
}

#[test]
fn try_merge_leaves_a_full_aggregate_alone() {
    let mut map = AggregateMap::new();
    assert!(map.try_merge("x".to_string(), LogRegister { counter: u32::MAX, num_of_bytes: 7 }));
    assert!(!map.try_merge("x".to_string(), LogRegister::new(1)));
    assert!(map.try_merge("y".to_string(), LogRegister::new(1)));
    assert_eq!(map.get("x"), reg(u32::MAX, 7));
    assert_eq!(map.get("y"), reg(1, 1));
    assert_eq!(map.len(), 2);
}

#[test]
fn line_behind_the_last_budget_is_not_read() {
    // 624 bytes and 30 workers: the budget is 20, the last budget ends at 600
    // and the last line starts at 611.
    let mut data: Vec<u8> = Vec::new();
    for _ in 0..47 {
        data.extend_from_slice(b"{\"type\":\"a\"}\n");
    }
    data.extend_from_slice(b"{\"type\":\"z\"}\n");
    assert_eq!(data.len(), 624);
    let whole = single_thread_parser(&data).unwrap();
    assert_eq!(whole.get("a"), reg(47, 611));
    assert_eq!(whole.get("z"), reg(1, 13));
    let split = multi_thread_parser_channel(30, &data).unwrap();
    assert_eq!(split.get("a"), reg(47, 611));
    assert_eq!(split.get("z"), None);
    assert_eq!(split.len(), 1);
    let three = multi_thread_parser_channel(3, &data).unwrap();
    assert_eq!(three.get("a"), reg(47, 611));
    assert_eq!(three.get("z"), reg(1, 13));
    // 39 bytes and 20 workers: the budget is 1, the last budget ends at 20
    // and the third line starts at 26.
    let short = b"{\"type\":\"a\"}\n{\"type\":\"b\"}\n{\"type\":\"c\"}\n";
    let map = multi_thread_parser_channel(20, short).unwrap();
    assert_eq!(map.len(), 2);
    assert_eq!(map.get("a"), reg(1, 13));
    assert_eq!(map.get("b"), reg(1, 13));
    assert_eq!(map.get("c"), None);
}

#[test]
fn partition_inside_a_long_line_yields_nothing() {
    // 54 bytes and 3 workers: the budget is 18 and the first line, of 41
    // bytes, holds the starts of the second and the third partition.
    let mut data: Vec<u8> = Vec::new();
    data.extend_from_slice(b"{\"type\":\"a\",\"m\":\"xxxxxxxxxxxxxxxxxxxxx\"}\n");
    data.extend_from_slice(b"{\"type\":\"b\"}\n");
    assert_eq!(data.len(), 54);
    assert_eq!(partially_read_file(0, 18, &data), vec![("a".to_string(), LogRegister::new(41))]);
    assert_eq!(partially_read_file(18, 18, &data), vec![]);
    assert_eq!(partially_read_file(36, 18, &data), vec![("b".to_string(), LogRegister::new(13))]);
    let split = multi_thread_parser_channel(3, &data).unwrap();
    assert_eq!(split.len(), 2);
    assert_eq!(split.get("a"), reg(1, 41));
    assert_eq!(split.get("b"), reg(1, 13));
    let whole = multi_thread_parser_channel(1, &data).unwrap();
    assert_eq!(whole.get("a"), reg(1, 41));
    assert_eq!(whole.get("b"), reg(1, 13));
}

#[test]
fn start_behind_the_data_yields_nothing() {
    assert_eq!(partially_read_file(39, 10, THREE_LINES), vec![]);
    assert_eq!(partially_read_file(1000, 10, THREE_LINES), vec![]);
    assert_eq!(partially_read_file(u64::MAX, u64::MAX, THREE_LINES), vec![]);
    assert_eq!(
        partially_read_file(27, 0, THREE_LINES),
        vec![]
    );
    assert_eq!(
        partially_read_file(1, u64::MAX, THREE_LINES),
        vec![("b".to_string(), LogRegister::new(13)), ("a".to_string(), LogRegister::new(13))]
    );
}

#[test]
fn extra_fields_need_only_be_well_formed() {
    let mut data: Vec<u8> = Vec::new();
    data.extend_from_slice(b"{\"type\":\"a\",\"n\":1e999}\n");
    let mut deep = String::from("{\"type\":\"a\",\"d\":");
    for _ in 0..300 {
        deep.push('[');
    }
    for _ in 0..300 {
        deep.push(']');
    }
    deep.push_str("}\n");
    data.extend_from_slice(deep.as_bytes());
    data.extend_from_slice(b"{\"type\":\"a\",\"n\":01}\n");
    data.extend_from_slice(b"{\"type\":\"a\",\"n\":}\n");
    data.extend_from_slice(b"{\"type\":\"a\"} x\n");
    let map = single_thread_parser(&data).unwrap();
    assert_eq!(map.len(), 1);
    assert_eq!(map.get("a"), reg(2, 23 + deep.len() as u64));
}

#[test]
fn last_of_two_type_fields_counts() {
    let data = b"{\"type\":\"a\",\"type\":\"b\"}\n";
    let map = single_thread_parser(data).unwrap();
    assert_eq!(map.get("a"), None);
    assert_eq!(map.get("b"), reg(1, 24));
}
