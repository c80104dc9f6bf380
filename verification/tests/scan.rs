use dupfind::scan::{hashed_files, regular_files, ScanError, Visit};
use dupfind::File;

fn found(path: &str, regular: bool) -> Visit {
    Visit::Found { path: path.to_string(), regular }
}

#[test]
fn regular_files_of_an_empty_walk() {
    assert_eq!(regular_files(&Vec::new()), Ok(Vec::new()));
}

#[test]
fn regular_files_of_an_empty_directory() {
    assert_eq!(regular_files(&vec![found("root", false)]), Ok(Vec::new()));
}

#[test]
fn regular_files_leaves_out_what_is_no_regular_file() {
    let visits = vec![
        found("root", false),
        found("root/a.txt", true),
        found("root/sub", false),
        found("root/sub/b.txt", true),
        found("root/link", false),
        found("root/c.txt", true),
    ];
    assert_eq!(
        regular_files(&visits),
        Ok(vec!["root/a.txt".to_string(), "root/sub/b.txt".to_string(), "root/c.txt".to_string()])
    );
}

#[test]
fn regular_files_passes_over_what_could_not_be_read_below_the_root() {
    let visits = vec![
        found("root", false),
        found("root/a.txt", true),
        Visit::Failed { depth: 1 },
        found("root/sub", false),
        Visit::Failed { depth: 2 },
        found("root/b.txt", true),
    ];
    assert_eq!(regular_files(&visits), Ok(vec!["root/a.txt".to_string(), "root/b.txt".to_string()]));
}

#[test]
fn regular_files_of_a_root_that_is_a_file() {
    assert_eq!(regular_files(&vec![found("a.txt", true)]), Ok(vec!["a.txt".to_string()]));
}

#[test]
fn regular_files_fails_where_the_root_cannot_be_read() {
    assert_eq!(regular_files(&vec![Visit::Failed { depth: 0 }]), Err(ScanError::RootUnreadable));
}

#[test]
fn regular_files_fails_where_the_root_directory_cannot_be_opened() {
    let visits = vec![found("root", false), Visit::Failed { depth: 0 }];
    assert_eq!(regular_files(&visits), Err(ScanError::RootUnreadable));
}

#[test]
fn hashed_files_hands_out_every_record_that_was_read() {
    let reads = vec![Some(File::new("a", "11".to_string())), Some(File::new("b", "22".to_string()))];
    let files = hashed_files(&reads).unwrap();
    let pairs: Vec<(&str, &str)> = files.iter().map(|f| (f.path, f.hash.as_str())).collect();
    assert_eq!(pairs, vec![("a", "11"), ("b", "22")]);
}

#[test]
fn hashed_files_of_nothing() {
    let reads: Vec<Option<File>> = Vec::new();
    assert!(hashed_files(&reads).unwrap().is_empty());
}

#[test]
fn hashed_files_names_the_first_file_that_was_not_read() {
    let reads = vec![
        Some(File::new("a", "11".to_string())),
        None,
        Some(File::new("c", "33".to_string())),
        None,
    ];
    assert_eq!(hashed_files(&reads).unwrap_err(), ScanError::FileUnreadable { index: 1 });
}

#[test]
fn regular_files_of_a_directory_with_three_files_in_any_order() {
    let root = || found("base", false);
    let names = ["base/a.txt", "base/b.txt", "base/c.txt"];
    let orders = [[0, 1, 2], [0, 2, 1], [1, 0, 2], [1, 2, 0], [2, 0, 1], [2, 1, 0]];
    for order in orders {
        let mut visits = vec![root()];
        for i in order {
            visits.push(found(names[i], true));
        }
        let mut files = regular_files(&visits).unwrap();
        assert_eq!(files.len(), 3);
        let listed: Vec<String> = order.iter().map(|&i| names[i].to_string()).collect();
        assert_eq!(files, listed);
        files.sort();
        assert_eq!(files, vec!["base/a.txt", "base/b.txt", "base/c.txt"]);
    }
}

#[test]
fn regular_files_lists_every_file_once() {
    let visits = vec![
        found("base", false),
        found("base/b.txt", true),
        found("base/sub", false),
        found("base/sub/b.txt", true),
        found("base/a.txt", true),
    ];
    let files = regular_files(&visits).unwrap();
    for file in &files {
        assert_eq!(files.iter().filter(|other| *other == file).count(), 1);
    }
    assert_eq!(files.len(), 3);
}
