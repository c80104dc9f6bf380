use dupfind::digest::get_hash_file;
use dupfind::group::get_duplicates;
use dupfind::report::{output_duplicate_files, Report};
use dupfind::scan::{hashed_files, regular_files, ScanError, Visit};
use dupfind::File;

#[test]
fn two_files_with_the_same_content_and_one_other() {
    let files = vec![
        get_hash_file("a.txt", b"hello"),
        get_hash_file("b.txt", b"hello"),
        get_hash_file("c.txt", b"world"),
    ];
    let found = get_duplicates(&files);
    let paths: Vec<&str> = found.iter().map(|f| f.path).collect();
    assert_eq!(paths, vec!["a.txt", "b.txt"]);
    assert_eq!(found[0].hash, found[1].hash);
    assert_eq!(found[0].hash, "5d41402abc4b2a76b9719d911017c592");
    assert!(!found.iter().any(|f| f.path == "c.txt"));
}

#[test]
fn three_files_with_the_same_content_and_two_others() {
    let files = vec![
        get_hash_file("one", b"alpha"),
        get_hash_file("same-1", b"shared content"),
        get_hash_file("two", b"beta"),
        get_hash_file("same-2", b"shared content"),
        get_hash_file("dir/same-3", b"shared content"),
    ];
    let mut found = get_duplicates(&files);
    assert_eq!(found.len(), 3);
    let report = output_duplicate_files(&mut found);
    assert_eq!(report.count(), 3);
    assert!(matches!(report, Report::Duplicates { count: 3, .. }));
    assert!(report.text().ends_with("\nDuplicates found: 3\n\n"));
    let paths: Vec<&str> = found.iter().map(|f| f.path).collect();
    assert_eq!(paths, vec!["same-1", "same-2", "dir/same-3"]);
}

#[test]
fn a_root_that_does_not_exist_is_an_error() {
    let walked = vec![Visit::Failed { depth: 0 }];
    assert_eq!(regular_files(&walked), Err(ScanError::RootUnreadable));
}

#[test]
fn an_empty_tree_has_no_duplicates() {
    let walked = vec![Visit::Found { path: ".".to_string(), regular: false }];
    let paths = regular_files(&walked).unwrap();
    assert!(paths.is_empty());
    let reads: Vec<Option<File>> = Vec::new();
    let files = hashed_files(&reads).unwrap();
    let mut found = get_duplicates(&files);
    assert!(found.is_empty());
    let report = output_duplicate_files(&mut found);
    assert!(matches!(report, Report::NoDuplicates));
    assert_eq!(report.text(), "No duplicates found\n\n");
}

#[test]
fn a_tree_without_repeated_content_has_no_duplicates() {
    let files = vec![
        get_hash_file("a", b"first"),
        get_hash_file("b", b"second"),
        get_hash_file("c", b"third"),
        get_hash_file("d", b""),
    ];
    let mut found = get_duplicates(&files);
    assert!(found.is_empty());
    assert!(matches!(output_duplicate_files(&mut found), Report::NoDuplicates));
}

#[test]
fn a_whole_scan_from_walk_to_report() {
    let walked = vec![
        Visit::Found { path: "root".to_string(), regular: false },
        Visit::Found { path: "root/a.txt".to_string(), regular: true },
        Visit::Found { path: "root/sub".to_string(), regular: false },
        Visit::Failed { depth: 2 },
        Visit::Found { path: "root/sub/b.txt".to_string(), regular: true },
        Visit::Found { path: "root/c.txt".to_string(), regular: true },
    ];
    let paths = regular_files(&walked).unwrap();
    let contents: [&[u8]; 3] = [b"hello", b"hello", b"world"];
    let reads: Vec<Option<File>> =
        paths.iter().zip(contents).map(|(path, content)| Some(get_hash_file(path, content))).collect();
    let files = hashed_files(&reads).unwrap();
    let mut found = get_duplicates(&files);
    let report = output_duplicate_files(&mut found);
    let expected = "
+----------------+----------------------------------+
| FILE PATH      | FILE HASH MD5                    |
+----------------+----------------------------------+
| root/a.txt     | 5d41402abc4b2a76b9719d911017c592 |
+----------------+----------------------------------+
| root/sub/b.txt | 5d41402abc4b2a76b9719d911017c592 |
+----------------+----------------------------------+

Duplicates found: 2

";
    assert_eq!(report.text(), expected);
}

#[test]
fn a_file_that_cannot_be_read_ends_the_scan() {
    let reads = vec![Some(get_hash_file("a", b"hello")), None, Some(get_hash_file("c", b"hello"))];
    assert_eq!(hashed_files(&reads).unwrap_err(), ScanError::FileUnreadable { index: 1 });
}

#[test]
fn files_with_the_same_content_stand_together_in_the_report() {
    let files = vec![
        get_hash_file("x/first", b"one content"),
        get_hash_file("second", b"another content"),
        get_hash_file("y/z/third", b"one content"),
        get_hash_file("fourth", b"another content"),
        get_hash_file("fifth", b"a third content"),
    ];
    let mut found = get_duplicates(&files);
    let report = output_duplicate_files(&mut found);
    assert_eq!(report.count(), 4);
    assert_eq!(found[0].hash, found[1].hash);
    assert_eq!(found[2].hash, found[3].hash);
    assert_ne!(found[1].hash, found[2].hash);
    assert!(found[1].hash < found[2].hash);
    let mut first: Vec<&str> = vec![found[0].path, found[1].path];
    let mut second: Vec<&str> = vec![found[2].path, found[3].path];
    if found[0].hash == format!("{:x}", md5::compute(b"another content")) {
        std::mem::swap(&mut first, &mut second);
    }
    assert_eq!(first, vec!["x/first", "y/z/third"]);
    assert_eq!(second, vec!["second", "fourth"]);
}
