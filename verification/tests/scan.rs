use rls::entry::{Entry, ListError, Timestamp};
use rls::scan::{scan, scan_children, Attributes, Child, DirectoryRead};

fn at(seconds: i64) -> Timestamp {
    Timestamp::new(seconds, 0, 0).unwrap()
}

fn file(name: &str, size: u64, seconds: i64) -> Child {
    let attributes = Attributes { size, modified: at(seconds), is_directory: false };
    Child::new(String::from(name), Some(attributes)).unwrap()
}

fn directory(name: &str) -> Child {
    let attributes = Attributes { size: 0, modified: at(0), is_directory: true };
    Child::new(String::from(name), Some(attributes)).unwrap()
}

fn unreadable(name: &str) -> Child {
    Child::new(String::from(name), None).unwrap()
}

fn names(entries: &[Entry]) -> Vec<String> {
    entries.iter().map(|e| e.name().to_string()).collect()
}

#[test]
fn a_child_name_holds_no_path_separator() {
    assert!(Child::new(String::from("a/b"), None).is_none());
    assert!(Child::new(String::from("ab"), None).is_some());
}

#[test]
fn a_child_makes_the_entry_of_its_attributes() {
    let child = file("a.txt", 20, 7);
    assert_eq!(child.name(), "a.txt");
    let entry = child.entry().unwrap();
    assert_eq!(entry.name(), "a.txt");
    assert_eq!(entry.size(), 20);
    assert_eq!(entry.modified(), at(7));
    assert!(!entry.is_directory());
    assert!(directory("src").entry().unwrap().is_directory());
    assert!(unreadable("x").entry().is_none());
}

#[test]
fn a_child_is_listed_unless_hidden_and_filtered() {
    assert!(file("a", 0, 0).is_listed(false));
    assert!(file("a", 0, 0).is_listed(true));
    assert!(!file(".a", 0, 0).is_listed(false));
    assert!(file(".a", 0, 0).is_listed(true));
}

#[test]
fn a_scan_without_hidden_entries_yields_no_dotted_name() {
    let read = DirectoryRead::Children(vec![
        file("b.txt", 10, 1),
        file(".hidden", 5, 3),
        directory(".git"),
        file("a.txt", 20, 2),
        directory("src"),
    ]);
    let entries = scan(&read, false).unwrap();
    assert_eq!(names(&entries), ["b.txt", "a.txt", "src"]);
    assert!(entries.iter().all(|e| !e.name().starts_with('.')));
}

#[test]
fn a_scan_with_hidden_entries_yields_every_child() {
    let read = DirectoryRead::Children(vec![
        file("b.txt", 10, 1),
        file(".hidden", 5, 3),
        directory(".git"),
        file("a.txt", 20, 2),
    ]);
    let entries = scan(&read, true).unwrap();
    assert_eq!(names(&entries), ["b.txt", ".hidden", ".git", "a.txt"]);
    assert_eq!(entries[1].size(), 5);
    assert!(entries[2].is_directory());
}

#[test]
fn a_scan_keeps_the_order_of_the_read() {
    let read = DirectoryRead::Children(vec![file("z", 1, 1), file("a", 2, 2), file("m", 3, 3)]);
    assert_eq!(names(&scan(&read, false).unwrap()), ["z", "a", "m"]);
}

#[test]
fn a_scan_of_an_empty_directory_is_empty() {
    assert_eq!(scan(&DirectoryRead::Children(vec![]), false), Ok(vec![]));
    assert_eq!(scan_children(&vec![], true), Ok(vec![]));
}

#[test]
fn a_missing_path_is_not_found() {
    assert_eq!(scan(&DirectoryRead::Missing, false), Err(ListError::NotFound));
    assert_eq!(scan(&DirectoryRead::Missing, true), Err(ListError::NotFound));
}

#[test]
fn an_unreadable_path_is_denied() {
    assert_eq!(scan(&DirectoryRead::Denied, false), Err(ListError::PermissionDenied));
}

#[test]
fn a_listed_child_without_attributes_fails_the_whole_scan() {
    let read = DirectoryRead::Children(vec![file("a", 1, 1), unreadable("b"), file("c", 1, 1)]);
    assert_eq!(scan(&read, false), Err(ListError::MetadataUnavailable));
    assert_eq!(scan(&read, true), Err(ListError::MetadataUnavailable));
}

#[test]
fn a_filtered_child_without_attributes_does_not_fail_the_scan() {
    let read = DirectoryRead::Children(vec![file("a", 1, 1), unreadable(".b"), file("c", 1, 1)]);
    assert_eq!(names(&scan(&read, false).unwrap()), ["a", "c"]);
    assert_eq!(scan(&read, true), Err(ListError::MetadataUnavailable));
}
