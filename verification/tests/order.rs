use dupfind::order::{hash_at_most, sort_by_hash};
use dupfind::File;

fn record<'a>(path: &'a str, hash: &str) -> File<'a> {
    File::new(path, hash.to_string())
}

fn pairs(files: &[File]) -> Vec<(String, String)> {
    files.iter().map(|f| (f.path.to_string(), f.hash.clone())).collect()
}

fn pair(path: &str, hash: &str) -> (String, String) {
    (path.to_string(), hash.to_string())
}

#[test]
fn hash_at_most_orders_by_the_first_different_byte() {
    assert!(hash_at_most("0cc1", "5d41"));
    assert!(!hash_at_most("5d41", "0cc1"));
    assert!(hash_at_most("5d41", "5d42"));
    assert!(!hash_at_most("5d42", "5d41"));
    assert!(hash_at_most("9", "a"));
    assert!(!hash_at_most("a", "9"));
}

#[test]
fn hash_at_most_holds_of_equal_hashes() {
    assert!(hash_at_most("5d41402a", "5d41402a"));
    assert!(hash_at_most("", ""));
}

#[test]
fn hash_at_most_puts_a_prefix_first() {
    assert!(hash_at_most("", "0"));
    assert!(!hash_at_most("0", ""));
    assert!(hash_at_most("ab", "abc"));
    assert!(!hash_at_most("abc", "ab"));
}

#[test]
fn hash_at_most_agrees_with_the_order_of_strings() {
    let samples = ["", "0", "00", "0a", "a", "A", "z", "zz", "\u{e9}", "\u{20ac}", "\u{1f600}", "~"];
    for a in samples {
        for b in samples {
            assert_eq!(hash_at_most(a, b), a <= b);
        }
    }
}

#[test]
fn sort_by_hash_of_nothing_and_of_one() {
    let mut none: Vec<File> = Vec::new();
    sort_by_hash(&mut none);
    assert!(none.is_empty());
    let mut one = vec![record("a", "11")];
    sort_by_hash(&mut one);
    assert_eq!(pairs(&one), vec![pair("a", "11")]);
}

#[test]
fn sort_by_hash_sorts_and_keeps_the_order_within_a_group() {
    let mut files = vec![
        record("a", "33"),
        record("b", "11"),
        record("c", "22"),
        record("d", "11"),
        record("e", "33"),
        record("f", "11"),
        record("g", "22"),
    ];
    sort_by_hash(&mut files);
    assert_eq!(
        pairs(&files),
        vec![
            pair("b", "11"),
            pair("d", "11"),
            pair("f", "11"),
            pair("c", "22"),
            pair("g", "22"),
            pair("a", "33"),
            pair("e", "33"),
        ]
    );
}

#[test]
fn sort_by_hash_leaves_sorted_files_as_they_are() {
    let mut files = vec![record("z", "0a"), record("y", "0a"), record("x", "0b"), record("w", "1")];
    sort_by_hash(&mut files);
    assert_eq!(pairs(&files), vec![pair("z", "0a"), pair("y", "0a"), pair("x", "0b"), pair("w", "1")]);
}

#[test]
fn sort_by_hash_reverses_files_in_falling_order() {
    let mut files = vec![record("a", "f"), record("b", "e"), record("c", "d"), record("d", "c")];
    sort_by_hash(&mut files);
    assert_eq!(pairs(&files), vec![pair("d", "c"), pair("c", "d"), pair("b", "e"), pair("a", "f")]);
}

#[test]
fn sort_by_hash_agrees_with_a_stable_sort() {
    let paths: Vec<String> = (0..200).map(|i| format!("file{i}")).collect();
    let mut files: Vec<File> =
        paths.iter().enumerate().map(|(i, p)| File::new(p, format!("{:x}", (i * 7919) % 31))).collect();
    let mut expected = pairs(&files);
    expected.sort_by(|a, b| a.1.cmp(&b.1));
    sort_by_hash(&mut files);
    assert_eq!(pairs(&files), expected);
}
