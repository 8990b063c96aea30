use rls::entry::{ListError, OutputMode, ResolvedOptions, SortKey, Timestamp};
use rls::format::{FileInfo, Rendering};
use rls::listing::list_directory;
use rls::scan::{Attributes, Child, DirectoryRead};

fn file(name: &str, size: u64, seconds: i64) -> Child {
    let modified = Timestamp::new(seconds, 0, 0).unwrap();
    let attributes = Attributes { size, modified, is_directory: false };
    Child::new(String::from(name), Some(attributes)).unwrap()
}

fn scenario() -> DirectoryRead {
    DirectoryRead::Children(vec![
        file("b.txt", 10, 1_703_493_000),
        file("a.txt", 20, 1_704_463_389),
        file(".hidden", 5, 1_704_000_000),
    ])
}

fn options(all: bool, long: bool, json: bool, sort_key: SortKey) -> ResolvedOptions {
    ResolvedOptions::from_flags(all, long, false, json, sort_key, vec![])
}

#[test]
fn the_scenario_without_hidden_entries_by_name() {
    let output = list_directory("d", &scenario(), &options(false, false, false, SortKey::Name));
    assert_eq!(output, Ok(Rendering::Text(String::from("d:\na.txt  b.txt\n"))));
}

#[test]
fn the_scenario_with_hidden_entries_by_size() {
    let output = list_directory("d", &scenario(), &options(true, false, false, SortKey::Size));
    assert_eq!(output, Ok(Rendering::Text(String::from("d:\n.hidden  b.txt  a.txt\n"))));
}

#[test]
fn the_scenario_by_time_puts_the_older_first() {
    let output = list_directory("d", &scenario(), &options(false, false, false, SortKey::Time));
    assert_eq!(output, Ok(Rendering::Text(String::from("d:\nb.txt  a.txt\n"))));
}

#[test]
fn the_scenario_as_a_long_table_marks_both_as_files() {
    let output = list_directory("d", &scenario(), &options(false, true, false, SortKey::Name));
    let expected = "d:\n-\t20 B\tJan  5 14:03\ta.txt\n-\t10 B\tDec 25 08:30\tb.txt\n";
    assert_eq!(output, Ok(Rendering::Text(String::from(expected))));
}

#[test]
fn the_scenario_as_structured_records() {
    let output = list_directory("d", &scenario(), &options(false, true, true, SortKey::Size));
    let expected = vec![
        FileInfo {
            name: String::from("b.txt"),
            size: 10,
            modified: String::from("2023-12-25 08:30:00"),
            is_dir: false,
        },
        FileInfo {
            name: String::from("a.txt"),
            size: 20,
            modified: String::from("2024-01-05 14:03:09"),
            is_dir: false,
        },
    ];
    assert_eq!(output, Ok(Rendering::Records(expected)));
}

#[test]
fn a_listing_hands_on_the_failure_of_the_scan() {
    let by_name = options(false, false, false, SortKey::Name);
    assert_eq!(list_directory("d", &DirectoryRead::Missing, &by_name), Err(ListError::NotFound));
    assert_eq!(
        list_directory("d", &DirectoryRead::Denied, &by_name),
        Err(ListError::PermissionDenied)
    );
    let read = DirectoryRead::Children(vec![
        file("a", 1, 1),
        Child::new(String::from("b"), None).unwrap(),
    ]);
    assert_eq!(list_directory("d", &read, &by_name), Err(ListError::MetadataUnavailable));
}

#[test]
fn listing_twice_gives_the_same_output() {
    for mode in [(false, false), (true, false), (false, true)] {
        let chosen = options(true, mode.0, mode.1, SortKey::Time);
        assert_eq!(
            list_directory("d", &scenario(), &chosen),
            list_directory("d", &scenario(), &chosen)
        );
    }
    assert_eq!(options(true, true, false, SortKey::Time).mode, OutputMode::LongTable);
}
