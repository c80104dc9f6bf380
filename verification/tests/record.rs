use dupfind::File;

#[test]
fn new_keeps_path_and_hash() {
    let file = File::new("dir/a.txt", "5d41402abc4b2a76b9719d911017c592".to_string());
    assert_eq!(file.path, "dir/a.txt");
    assert_eq!(file.hash, "5d41402abc4b2a76b9719d911017c592");
}

#[test]
fn clone_keeps_path_and_hash() {
    let file = File::new("dir/a.txt", "5d41402abc4b2a76b9719d911017c592".to_string());
    let copy = file.clone();
    assert_eq!(copy.path, file.path);
    assert_eq!(copy.hash, file.hash);
}

#[test]
fn fields_are_open_to_the_caller() {
    let path = String::from("b.txt");
    let file = File { path: &path, hash: String::from("00") };
    assert_eq!(file.path, "b.txt");
    assert_eq!(file.hash, "00");
}
