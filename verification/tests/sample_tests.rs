use log_parser::parser::{multi_thread_parser_channel, single_thread_parser};
use log_parser::register::LogRegister;
use log_parser::sample::{
    draw_sample, prepare_sample_file, render_checked_sample, render_sample, sample_reads_back,
    write_record, SampleRecord,
};

#[test]
fn record_is_written_as_one_json_line() {
    let line = write_record("0", "abc", "hi");
    assert_eq!(line, b"{\"id\":\"abc\",\"message\":\"hi\",\"type\":\"0\"}\n".to_vec());
}

#[test]
fn record_strings_are_escaped() {
    let line = write_record("a\"b", "x\\y", "tab\there");
    assert_eq!(
        line,
        b"{\"id\":\"x\\\\y\",\"message\":\"tab\\there\",\"type\":\"a\\\"b\"}\n".to_vec()
    );
    let map = single_thread_parser(&line).unwrap();
    assert_eq!(
        map.get("a\"b"),
        Some(LogRegister { counter: 1, num_of_bytes: line.len() as u64 })
    );
}

#[test]
fn rendered_sample_counts_each_line() {
    let records = vec![
        SampleRecord { log_type: 12, id: "i1".to_string(), message: "m".to_string() },
        SampleRecord { log_type: 3, id: "i2".to_string(), message: "mm".to_string() },
        SampleRecord { log_type: 12, id: "i3".to_string(), message: "mmm".to_string() },
    ];
    let (content, truth) = render_sample(&records);
    let expected = "{\"id\":\"i1\",\"message\":\"m\",\"type\":\"12\"}\n\
                    {\"id\":\"i2\",\"message\":\"mm\",\"type\":\"3\"}\n\
                    {\"id\":\"i3\",\"message\":\"mmm\",\"type\":\"12\"}\n";
    assert_eq!(content, expected.as_bytes().to_vec());
    assert_eq!(truth.len(), 2);
    assert_eq!(truth.get("12"), Some(LogRegister { counter: 2, num_of_bytes: 38 + 40 }));
    assert_eq!(truth.get("3"), Some(LogRegister { counter: 1, num_of_bytes: 38 }));
    assert_eq!(truth.categories(), &vec!["12".to_string(), "3".to_string()]);
}

#[test]
fn empty_sample_is_empty() {
    let (content, truth) = prepare_sample_file(0, 5, 50);
    assert_eq!(content, Vec::<u8>::new());
    assert_eq!(truth.len(), 0);
}

#[test]
fn sample_of_one_category_and_one_letter() {
    let (content, truth) = prepare_sample_file(40, 1, 1);
    assert_eq!(content.len(), 40 * 71);
    assert_eq!(truth.len(), 1);
    assert_eq!(truth.get("0"), Some(LogRegister { counter: 40, num_of_bytes: 40 * 71 }));
    let first = &content[..71];
    assert!(first.starts_with(b"{\"id\":\""));
    assert!(first.ends_with(b"\",\"type\":\"0\"}\n"));
    assert!(first[56].is_ascii_alphanumeric());
}

#[test]
fn sample_round_trip() {
    let (content, truth) = prepare_sample_file(1000, 5, 50);
    let parsed = single_thread_parser(&content).unwrap();
    assert_eq!(parsed.len(), truth.len());
    let mut lines: u32 = 0;
    let mut bytes: u64 = 0;
    for category in truth.categories() {
        let number: u32 = category.parse().unwrap();
        assert!(number < 5);
        let expected = truth.get(category);
        assert!(expected.is_some());
        assert_eq!(parsed.get(category), expected);
        lines += expected.unwrap().counter;
        bytes += expected.unwrap().num_of_bytes;
    }
    assert_eq!(lines, 1000);
    assert_eq!(bytes, content.len() as u64);
    assert!(truth.len() >= 2 && truth.len() <= 5);
    let shortest = content.split(|b| *b == b'\n').filter(|l| !l.is_empty()).map(|l| l.len()).min();
    let longest = content.split(|b| *b == b'\n').map(|l| l.len()).max();
    assert!(shortest.unwrap() >= 70);
    assert!(longest.unwrap() <= 119);
    assert!(shortest < longest);
    let one_worker = multi_thread_parser_channel(1, &content).unwrap();
    for category in truth.categories() {
        assert_eq!(one_worker.get(category), truth.get(category));
    }
}

#[test]
fn sample_lines_stay_within_the_message_size() {
    let (content, _) = prepare_sample_file(200, 3, 4);
    let mut seen = 0;
    for line in content.split(|b| *b == b'\n') {
        if line.is_empty() {
            continue;
        }
        seen += 1;
        // 70 bytes without the message and the newline, for a one-digit category
        assert!(line.len() >= 70 && line.len() <= 73);
    }
    assert_eq!(seen, 200);
}

#[test]
fn drawn_sample_reads_back_and_makes_the_round_trip() {
    let records = draw_sample(1000, 5, 50);
    assert_eq!(records.len(), 1000);
    for record in &records {
        assert!(record.log_type < 5);
        assert!(record.message.len() >= 1 && record.message.len() <= 50);
        assert!(record.message.chars().all(|c| c.is_ascii_alphanumeric()));
        assert_eq!(record.id.len(), 36);
    }
    assert!(sample_reads_back(&records));
    let (content, truth) = render_checked_sample(&records).unwrap();
    let plain = render_sample(&records);
    assert_eq!(content, plain.0);
    let parsed = single_thread_parser(&content).unwrap();
    let one_worker = multi_thread_parser_channel(1, &content).unwrap();
    assert_eq!(parsed.len(), truth.len());
    assert_eq!(one_worker.len(), truth.len());
    for category in truth.categories() {
        assert!(truth.get(category).is_some());
        assert_eq!(parsed.get(category), truth.get(category));
        assert_eq!(one_worker.get(category), truth.get(category));
    }
}

#[test]
fn records_with_control_characters_read_back() {
    let records = vec![
        SampleRecord { log_type: 7, id: "a\nb".to_string(), message: "q\"\\\u{1}".to_string() },
        SampleRecord { log_type: 4294967295, id: String::new(), message: "\u{e9}\n".to_string() },
    ];
    assert!(sample_reads_back(&records));
    let (content, truth) = render_checked_sample(&records).unwrap();
    assert_eq!(content.iter().filter(|b| **b == b'\n').count(), 2);
    let parsed = single_thread_parser(&content).unwrap();
    assert_eq!(parsed.len(), 2);
    assert_eq!(parsed.get("7"), truth.get("7"));
    assert_eq!(parsed.get("4294967295"), truth.get("4294967295"));
    assert_eq!(truth.get("7").unwrap().counter, 1);
}
