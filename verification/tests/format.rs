use rls::entry::{Entry, OutputMode, Timestamp};
use rls::format::{
    list_long_format, list_short_format, render, structured_records, FileInfo, Rendering,
};

fn entry(name: &str, size: u64, seconds: i64, is_directory: bool) -> Entry {
    let modified = Timestamp::new(seconds, 0, 0).unwrap();
    Entry::new(String::from(name), size, modified, is_directory).unwrap()
}

fn sample() -> Vec<Entry> {
    vec![
        entry("a.txt", 20, 1_704_463_389, false),
        entry("src", 4096, 1_703_493_000, true),
        entry("b.txt", 10, 951_825_600, false),
    ]
}

#[test]
fn short_columns_separate_the_names_by_a_double_space() {
    let text = list_short_format("docs", &sample());
    assert_eq!(text, "docs:\na.txt  \x1B[1;34msrc\x1B[0m/  b.txt\n");
}

#[test]
fn short_columns_of_one_entry_have_no_gap() {
    let text = list_short_format(".", &[entry("only", 1, 0, false)].to_vec());
    assert_eq!(text, ".:\nonly\n");
}

#[test]
fn short_columns_of_an_empty_directory_are_header_and_line_end() {
    assert_eq!(list_short_format("empty", &vec![]), "empty:\n\n");
}

#[test]
fn the_long_table_has_one_line_per_entry() {
    let text = list_long_format("docs", &sample());
    let expected = "docs:\n\
                    -\t20 B\tJan  5 14:03\ta.txt\n\
                    d\t4.0 KB\tDec 25 08:30\t\x1B[1;34msrc\x1B[0m/\n\
                    -\t10 B\tFeb 29 12:00\tb.txt\n";
    assert_eq!(text, expected);
}

#[test]
fn the_long_table_of_an_empty_directory_is_its_header() {
    assert_eq!(list_long_format("/tmp/x", &vec![]), "/tmp/x:\n");
}

#[test]
fn the_long_table_marks_files_with_a_dash() {
    let entries = vec![entry("a.txt", 20, 200, false), entry("b.txt", 10, 100, false)];
    let text = list_long_format(".", &entries);
    let lines: Vec<&str> = text.lines().skip(1).collect();
    assert_eq!(lines.len(), 2);
    assert!(lines.iter().all(|line| line.starts_with("-\t")));
    assert!(lines[0].ends_with("\ta.txt"));
    assert!(lines[1].ends_with("\tb.txt"));
}

#[test]
fn the_long_table_scales_sizes() {
    let entries = vec![entry("big", 5_000_000_000, 0, false), entry("mid", 1536, 0, false)];
    let text = list_long_format("d", &entries);
    assert_eq!(text, "d:\n-\t4.7 GB\tJan  1 00:00\tbig\n-\t1.5 KB\tJan  1 00:00\tmid\n");
}

#[test]
fn structured_records_hold_the_fields_of_the_entries() {
    let records = structured_records(&sample());
    let expected = vec![
        FileInfo {
            name: String::from("a.txt"),
            size: 20,
            modified: String::from("2024-01-05 14:03:09"),
            is_dir: false,
        },
        FileInfo {
            name: String::from("src"),
            size: 4096,
            modified: String::from("2023-12-25 08:30:00"),
            is_dir: true,
        },
        FileInfo {
            name: String::from("b.txt"),
            size: 10,
            modified: String::from("2000-02-29 12:00:00"),
            is_dir: false,
        },
    ];
    assert_eq!(records, expected);
    assert_eq!(structured_records(&vec![]), vec![]);
}

#[test]
fn each_mode_renders_through_its_formatter() {
    let entries = sample();
    assert_eq!(
        render(OutputMode::ShortColumns, "p", &entries),
        Rendering::Text(list_short_format("p", &entries))
    );
    assert_eq!(
        render(OutputMode::LongTable, "p", &entries),
        Rendering::Text(list_long_format("p", &entries))
    );
    assert_eq!(
        render(OutputMode::StructuredRecords, "p", &entries),
        Rendering::Records(structured_records(&entries))
    );
}

#[test]
fn formatting_twice_gives_the_same_output() {
    let entries = sample();
    for mode in [OutputMode::ShortColumns, OutputMode::LongTable, OutputMode::StructuredRecords] {
        let first = render(mode, "docs", &entries);
        let second = render(mode, "docs", &entries);
        assert_eq!(first, second);
    }
    assert_eq!(
        list_long_format("docs", &entries).into_bytes(),
        list_long_format("docs", &entries).into_bytes()
    );
}

#[test]
fn structured_records_survive_serialisation() {
    let entries = vec![
        entry("a \"quoted\" name", 20, 1_704_463_389, false),
        entry("tab\there", u64::MAX, 0, true),
        entry("é…", 0, -1, false),
    ];
    let records = structured_records(&entries);
    let mut values = Vec::new();
    for record in &records {
        let mut object = serde_json::Map::new();
        object.insert(String::from("name"), serde_json::Value::from(record.name.as_str()));
        object.insert(String::from("size"), serde_json::Value::from(record.size));
        object.insert(String::from("modified"), serde_json::Value::from(record.modified.as_str()));
        object.insert(String::from("is_dir"), serde_json::Value::from(record.is_dir));
        values.push(serde_json::Value::Object(object));
    }
    let text = serde_json::to_string_pretty(&serde_json::Value::Array(values)).unwrap();
    let parsed: serde_json::Value = serde_json::from_str(&text).unwrap();
    let parsed = parsed.as_array().unwrap();
    assert_eq!(parsed.len(), entries.len());
    for (value, entry) in parsed.iter().zip(entries.iter()) {
        assert_eq!(value["name"].as_str(), Some(entry.name()));
        assert_eq!(value["size"].as_u64(), Some(entry.size()));
        assert_eq!(value["is_dir"].as_bool(), Some(entry.is_directory()));
    }
    assert_eq!(parsed[0]["modified"].as_str(), Some("2024-01-05 14:03:09"));
    assert_eq!(parsed[2]["modified"].as_str(), Some("1969-12-31 23:59:59"));
}
