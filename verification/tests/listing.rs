use xds_code::listing::{sort_keyed, KeyedEntry};
use xds_code::{DirectoryContents, FileEntry};

fn entry(name: &str, is_directory: bool, size: u64) -> FileEntry {
    FileEntry::new(name.to_string(), format!("/dir/{}", name), is_directory, size)
}

fn names(contents: &DirectoryContents) -> Vec<String> {
    contents.entries().iter().map(|entry| entry.name().to_string()).collect()
}

fn listing_of(entries: Vec<FileEntry>) -> Vec<String> {
    names(&DirectoryContents::new(entries, "/dir".to_string()))
}

#[test]
fn an_entry_keeps_what_it_was_given() {
    let entry = FileEntry::new("a.txt".to_string(), "/x/a.txt".to_string(), false, 12);
    assert_eq!(entry.name(), "a.txt");
    assert_eq!(entry.path(), "/x/a.txt");
    assert!(!entry.is_directory());
    assert_eq!(entry.size(), 12);
}

#[test]
fn directories_come_before_files() {
    let listed = listing_of(vec![
        entry("b.txt", false, 1),
        entry("zeta", true, 0),
        entry("a.txt", false, 2),
        entry("alpha", true, 0),
    ]);
    assert_eq!(listed, vec!["alpha", "zeta", "a.txt", "b.txt"]);
}

#[test]
fn names_are_ordered_without_regard_to_case() {
    let listed = listing_of(vec![
        entry("banana", false, 1),
        entry("Cherry", false, 1),
        entry("apple", false, 1),
        entry("Zebra", false, 1),
        entry("_under", false, 1),
        entry("10", false, 1),
        entry("9", false, 1),
    ]);
    assert_eq!(listed, vec!["10", "9", "_under", "apple", "banana", "Cherry", "Zebra"]);
}

#[test]
fn a_name_comes_after_its_beginnings() {
    let listed = listing_of(vec![
        entry("abc", false, 1),
        entry("ab", false, 1),
        entry("a", false, 1),
        entry("abcd", false, 1),
    ]);
    assert_eq!(listed, vec!["a", "ab", "abc", "abcd"]);
}

#[test]
fn names_beyond_ascii_are_ordered_by_their_lowercase_bytes() {
    let listed = listing_of(vec![
        entry("\u{c9}cole", false, 1),
        entry("zoo", false, 1),
        entry("\u{e9}clair", false, 1),
        entry("\u{4e16}", false, 1),
    ]);
    assert_eq!(listed, vec!["zoo", "\u{e9}clair", "\u{c9}cole", "\u{4e16}"]);
}

#[test]
fn the_listing_holds_each_entry_once() {
    let mut given = Vec::new();
    let mut seed: u32 = 12345;
    for i in 0..200 {
        seed = seed.wrapping_mul(1103515245).wrapping_add(12345);
        let name = format!("{}{}", ["x", "Y", "z", "A"][(seed >> 16) as usize % 4], seed % 50);
        given.push(entry(&format!("{}-{}", name, i), seed % 3 == 0, i));
    }
    let contents = DirectoryContents::new(given.clone(), "/big".to_string());
    assert_eq!(contents.current_path(), "/big");
    assert_eq!(contents.entries().len(), 200);
    let mut expected: Vec<(bool, String, u64)> = given
        .iter()
        .map(|entry| (!entry.is_directory(), entry.name().to_lowercase(), entry.size()))
        .collect();
    expected.sort();
    let listed: Vec<(bool, String, u64)> = contents
        .entries()
        .iter()
        .map(|entry| (!entry.is_directory(), entry.name().to_lowercase(), entry.size()))
        .collect();
    assert_eq!(listed, expected);
    let mut sizes: Vec<u64> = contents.entries().iter().map(|entry| entry.size()).collect();
    sizes.sort();
    assert_eq!(sizes, (0..200).collect::<Vec<u64>>());
}

#[test]
fn entries_with_equal_keys_are_all_kept() {
    let contents = DirectoryContents::new(
        vec![entry("Same", false, 1), entry("same", false, 2), entry("SAME", false, 3)],
        "/dir".to_string(),
    );
    let mut sizes: Vec<u64> = contents.entries().iter().map(|entry| entry.size()).collect();
    sizes.sort();
    assert_eq!(sizes, vec![1, 2, 3]);
}

#[test]
fn an_empty_directory_has_an_empty_listing() {
    let contents = DirectoryContents::new(Vec::new(), "/empty".to_string());
    assert!(contents.entries().is_empty());
    assert_eq!(contents.current_path(), "/empty");
    assert_eq!(listing_of(vec![entry("only", false, 0)]), vec!["only"]);
}

#[test]
fn keyed_entries_are_ordered_by_their_keys() {
    let keyed = |key: &str, name: &str, is_directory: bool| KeyedEntry {
        folded_name: key.to_string(),
        entry: entry(name, is_directory, 0),
    };
    let sorted = sort_keyed(vec![
        keyed("m", "first file", false),
        keyed("b", "second dir", true),
        keyed("c", "third file", false),
        keyed("a", "fourth dir", true),
        keyed("", "fifth file", false),
    ]);
    let order: Vec<&str> = sorted.iter().map(|item| item.entry.name()).collect();
    assert_eq!(order, vec!["fourth dir", "second dir", "fifth file", "third file", "first file"]);
    assert!(sort_keyed(Vec::new()).is_empty());
}
