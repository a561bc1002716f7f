use gentle::hash_files::{hash_files, sort_key_of, to_hex, SourceFile};
use gentle::order::{compare, Relation};

fn file(path: &str, contents: &[u8]) -> SourceFile {
    SourceFile { path: String::from(path), contents: contents.to_vec() }
}

fn hex_of(files: &Vec<SourceFile>) -> String {
    to_hex(&hash_files(files))
}

fn blake3_hex(bytes: &[u8]) -> String {
    blake3::hash(bytes).to_hex().to_string()
}

#[test]
fn empty_set_has_fixed_digest() {
    assert_eq!(
        hex_of(&Vec::new()),
        "af1349b9f5f9a1a6a0404dea36dcc9499bcb25c9adc112b7cc9a93cae41f3262"
    );
    assert_eq!(hex_of(&Vec::new()), hex_of(&Vec::new()));
}

#[test]
fn digest_is_blake3_of_contents_in_path_order() {
    let files = vec![file("./b.txt", b"second"), file("./a.txt", b"first ")];

    assert_eq!(hex_of(&files), blake3_hex(b"first second"));
    assert_eq!(hash_files(&files).len(), 32);
}

#[test]
fn argument_order_does_not_matter() {
    let one = vec![file("./A", b"alpha"), file("./B", b"beta")];
    let two = vec![file("./B", b"beta"), file("./A", b"alpha")];

    assert_eq!(hash_files(&one), hash_files(&two));
}

#[test]
fn one_changed_byte_changes_digest() {
    let before = vec![file("./A", b"alpha"), file("./B", b"beta")];
    let after = vec![file("./A", b"alpha"), file("./B", b"beto")];

    assert_ne!(hash_files(&before), hash_files(&after));
}

#[test]
fn same_path_is_hashed_once() {
    let files = vec![file("./a", b"x"), file("./b", b"y"), file("./a", b"x"), file(".//a", b"x")];

    assert_eq!(hex_of(&files), blake3_hex(b"xy"));
}

#[test]
fn first_of_equal_paths_is_kept() {
    let files = vec![file("a/b", b"kept"), file("a//b", b"dropped"), file("a/./b", b"dropped")];

    assert_eq!(hex_of(&files), blake3_hex(b"kept"));
}

#[test]
fn names_and_sizes_do_not_enter_the_digest() {
    let one = vec![file("./a", b"ab"), file("./b", b"c")];
    let two = vec![file("./x", b"a"), file("./y", b"bc")];

    assert_eq!(hash_files(&one), hash_files(&two));
}

#[test]
fn paths_are_ordered_by_component() {
    // As text "a-b/x" comes before "a/x"; by component "a" comes before "a-b".
    let files = vec![file("./a-b/x", b"2"), file("./a/x", b"1")];
    assert_eq!(hex_of(&files), blake3_hex(b"12"));

    let files = vec![file("b", b"3"), file("a/z", b"2"), file("a", b"1")];
    assert_eq!(hex_of(&files), blake3_hex(b"123"));
}

#[test]
fn sort_keys_follow_components() {
    assert_eq!(sort_key_of(""), Vec::<u32>::new());
    assert_eq!(sort_key_of("/"), vec![1]);
    assert_eq!(sort_key_of("."), vec![2]);
    assert_eq!(sort_key_of("./."), vec![2]);
    assert_eq!(sort_key_of(".."), vec![3]);
    assert_eq!(sort_key_of("a"), vec![4, 98, 0]);
    assert_eq!(sort_key_of("./a//b/"), vec![2, 4, 98, 0, 4, 99, 0]);
    assert_eq!(sort_key_of("/./a/../b"), vec![1, 4, 98, 0, 3, 4, 99, 0]);
    assert_eq!(sort_key_of("a/./b"), sort_key_of("a/b"));
    assert_ne!(sort_key_of("./a"), sort_key_of("a"));
}

#[test]
fn compare_is_dictionary_order() {
    assert_eq!(compare(&vec![1, 2], &vec![1, 2]), Relation::Same);
    assert_eq!(compare(&vec![1, 2], &vec![1, 3]), Relation::Before);
    assert_eq!(compare(&vec![1, 2], &vec![1, 2, 0]), Relation::Before);
    assert_eq!(compare(&vec![2], &vec![1, 9, 9]), Relation::After);
    assert_eq!(compare(&vec![], &vec![]), Relation::Same);
    assert_eq!(compare(&vec![0], &vec![]), Relation::After);
}

#[test]
fn hex_is_lower_case_pairs() {
    assert_eq!(to_hex(&vec![]), "");
    assert_eq!(to_hex(&vec![0x00, 0x0f, 0xa5, 0xff]), "000fa5ff");
    assert_eq!(to_hex(&vec![0xde, 0xad, 0xbe, 0xef]), "deadbeef");
}
