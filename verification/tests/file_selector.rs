use gentle::file_selector::{EntryKind, FileSelector, ListError, SelectorError, TreeEntry};
use gentle::path::{simplify, PathError};

fn file(path: &str) -> TreeEntry {
    TreeEntry { path: String::from(path), kind: EntryKind::File }
}

fn dir(path: &str) -> TreeEntry {
    TreeEntry { path: String::from(path), kind: EntryKind::Directory }
}

#[test]
fn empty_selector_matches_nothing() {
    let selector = FileSelector::builder().build();

    assert_eq!(selector.includes("foo.txt"), false);
}

#[test]
fn explicit_file_includes_that() {
    let selector = FileSelector::builder().path("foo.txt").unwrap().build();

    assert_eq!(selector.includes("foo.txt"), true);
}

#[test]
fn dir_path_includes_children() {
    let selector = FileSelector::builder().path("some/dir").unwrap().build();

    assert_eq!(selector.includes("some/dir/foo.txt"), true);
}

#[test]
fn subdir_prefixes_files() {
    let selector = FileSelector::builder()
        .set_subdir("some_dir")
        .unwrap()
        .path("foo.txt")
        .unwrap()
        .build();

    assert_eq!(selector.includes("foo.txt"), false);
    assert_eq!(selector.includes("some_dir/foo.txt"), true);
}

#[test]
fn glob_matches_file() {
    let selector = FileSelector::builder().glob("*.txt").unwrap().build();

    assert_eq!(selector.includes("foo.txt"), true);
    assert_eq!(selector.includes("foo.rs"), false);
    assert_eq!(selector.includes("some/dir/foo.txt"), false);
}

#[test]
fn glob_with_subdir() {
    let selector = FileSelector::builder()
        .set_subdir("some/dir")
        .unwrap()
        .glob("*.txt")
        .unwrap()
        .build();

    assert_eq!(selector.includes("some/dir/foo.txt"), true);
    assert_eq!(selector.includes("foo.txt"), false);
    assert_eq!(selector.includes("another/dir/foo.txt"), false);
}

#[test]
fn selector_has_prefix() {
    let selector = FileSelector::builder().path("./foo.txt").unwrap().build();

    assert_eq!(selector.includes("foo.txt"), true);
}

#[test]
fn file_has_prefix() {
    let selector = FileSelector::builder().path("foo.txt").unwrap().build();

    assert_eq!(selector.includes("./foo.txt"), true);
}

#[test]
fn subdir_is_self() {
    let selector = FileSelector::builder()
        .set_subdir("./")
        .unwrap()
        .path("foo.txt")
        .unwrap()
        .build();

    assert_eq!(selector.includes("foo.txt"), true);
}

#[test]
fn subdir_with_relative() {
    let selector = FileSelector::builder()
        .set_subdir("some/dir/../another")
        .unwrap()
        .path("foo.txt")
        .unwrap()
        .build();

    assert_eq!(selector.includes("some/dir/foo.txt"), false);
    assert_eq!(selector.includes("some/another/foo.txt"), true);
}

#[test]
fn simplify_cases() {
    assert_eq!(simplify("some/dir"), Ok(String::from("some/dir")));
    assert_eq!(simplify("./some/dir"), Ok(String::from("some/dir")));
    assert_eq!(simplify("dir/.."), Ok(String::from("")));
    assert_eq!(simplify("dir/../some/path"), Ok(String::from("some/path")));
}

#[test]
fn simplify_collapses_dots() {
    assert_eq!(simplify("a/./b"), Ok(String::from("a/b")));
    assert_eq!(simplify("a/b/.."), Ok(String::from("a")));
    assert_eq!(simplify("a/../b"), Ok(String::from("b")));
    assert_eq!(simplify("a//b/"), Ok(String::from("a/b")));
    assert_eq!(simplify(""), Ok(String::from("")));
    assert_eq!(simplify("."), Ok(String::from("")));
}

#[test]
fn simplify_rejects_escape() {
    assert_eq!(simplify(".."), Err(PathError::EscapesRoot));
    assert_eq!(simplify("a/../.."), Err(PathError::EscapesRoot));
    assert_eq!(simplify("a/../../b"), Err(PathError::EscapesRoot));
}

#[test]
fn simplify_keeps_root() {
    assert_eq!(simplify("/"), Ok(String::from("/")));
    assert_eq!(simplify("/a/./b"), Ok(String::from("/a/b")));
    assert_eq!(simplify("//a"), Ok(String::from("/a")));
    assert_eq!(simplify("/../a"), Ok(String::from("a")));
}

#[test]
fn simplify_is_idempotent() {
    for input in ["a/./b", "x/../y/z", "/q/r/..", "", "./", "deep/er/../../up"] {
        let once = simplify(input).unwrap();
        assert_eq!(simplify(&once), Ok(once.clone()));
    }
}

#[test]
fn dir_path_includes_itself_but_not_siblings() {
    let selector = FileSelector::builder().path("some/dir").unwrap().build();

    assert_eq!(selector.includes("some/dir"), true);
    assert_eq!(selector.includes("some/dir2/foo.txt"), false);
    assert_eq!(selector.includes("some"), false);
}

#[test]
fn empty_path_includes_every_relative_path() {
    let selector = FileSelector::builder().path(".").unwrap().build();

    assert_eq!(selector.includes("anything/at/all.txt"), true);
    assert_eq!(selector.includes(""), true);
    assert_eq!(selector.includes("/rooted"), false);
}

#[test]
fn builder_rejects_escaping_path() {
    assert_eq!(FileSelector::builder().path("..").err(), Some(SelectorError::EscapesRoot));
    assert_eq!(
        FileSelector::builder().set_subdir("a/../..").err(),
        Some(SelectorError::EscapesRoot)
    );
}

#[test]
fn builder_rejects_bad_glob() {
    assert_eq!(FileSelector::builder().glob("a**").err(), Some(SelectorError::InvalidGlob));
    assert_eq!(FileSelector::builder().glob("[").err(), Some(SelectorError::InvalidGlob));
    assert_eq!(FileSelector::builder().glob("***").err(), Some(SelectorError::InvalidGlob));
}

#[test]
fn subdir_does_not_reach_back() {
    let selector = FileSelector::builder()
        .path("first.txt")
        .unwrap()
        .glob("*.md")
        .unwrap()
        .set_subdir("later")
        .unwrap()
        .path("second.txt")
        .unwrap()
        .build();

    assert_eq!(selector.includes("first.txt"), true);
    assert_eq!(selector.includes("later/first.txt"), false);
    assert_eq!(selector.includes("later/second.txt"), true);
    assert_eq!(selector.includes("second.txt"), false);
    assert_eq!(selector.includes("README.md"), true);
    assert_eq!(selector.includes("later/README.md"), false);
}

#[test]
fn recursive_glob_crosses_directories() {
    let selector = FileSelector::builder()
        .set_subdir("crate")
        .unwrap()
        .glob("src/**/*.rs")
        .unwrap()
        .build();

    assert_eq!(selector.includes("crate/src/main.rs"), true);
    assert_eq!(selector.includes("crate/src/a/b/c.rs"), true);
    assert_eq!(selector.includes("crate/test/a.rs"), false);
    assert_eq!(selector.includes("src/main.rs"), false);
}

#[test]
fn glob_ignores_ascii_case() {
    let selector = FileSelector::builder().glob("*.txt").unwrap().build();

    assert_eq!(selector.includes("FOO.TXT"), true);
}

#[test]
fn glob_matches_normal_form() {
    let selector = FileSelector::builder().glob("a/*.txt").unwrap().build();

    assert_eq!(selector.includes("./a/b/../foo.txt"), true);
}

#[test]
fn merge_is_union() {
    let mut a = FileSelector::builder().path("x").unwrap().build();
    let b = FileSelector::builder().glob("*.md").unwrap().build();
    let only_a = FileSelector::builder().path("x").unwrap().build();
    let only_b = FileSelector::builder().glob("*.md").unwrap().build();
    a.merge(b);

    for candidate in ["x", "x/y.rs", "README.md", "y", "y/README.md", "x.md", "src/lib.rs"] {
        assert_eq!(
            a.includes(candidate),
            only_a.includes(candidate) || only_b.includes(candidate)
        );
    }
    assert_eq!(a.includes("x/y.rs"), true);
    assert_eq!(a.includes("README.md"), true);
    assert_eq!(a.includes("y/README.md"), false);
}

#[test]
fn merge_keeps_duplicates_out() {
    let mut a = FileSelector::builder().path("x").unwrap().path("y").unwrap().build();
    let b = FileSelector::builder().path("y").unwrap().path("z").unwrap().build();
    a.merge(b);

    assert_eq!(a.includes("x"), true);
    assert_eq!(a.includes("y/deep"), true);
    assert_eq!(a.includes("z"), true);
    assert_eq!(a.includes("w"), false);
}

#[test]
fn list_keeps_included_files_in_walk_order() {
    let selector = FileSelector::builder()
        .path("src")
        .unwrap()
        .glob("*.toml")
        .unwrap()
        .build();
    let entries = vec![
        dir("./"),
        file("./Cargo.toml"),
        dir("./src"),
        file("./src/main.rs"),
        file("./README.md"),
        file("./src/deep/mod.rs"),
        TreeEntry { path: String::from("./src/link"), kind: EntryKind::Other },
    ];

    assert_eq!(
        selector.list(&entries),
        Ok(vec![
            String::from("./Cargo.toml"),
            String::from("./src/main.rs"),
            String::from("./src/deep/mod.rs"),
        ])
    );
}

#[test]
fn list_rejects_escaping_files() {
    let selector = FileSelector::builder().path("src").unwrap().build();
    let entries = vec![file("./src/a.rs"), file("./../b.rs"), file("./src/c.rs")];
    assert_eq!(selector.list(&entries), Err(ListError::EscapesRoot));

    let entries = vec![file("./src/a.rs"), dir("./../b")];
    assert_eq!(selector.list(&entries), Ok(vec![String::from("./src/a.rs")]));
}

#[test]
fn try_includes_reports_escaping_paths() {
    let selector = FileSelector::builder().path("src").unwrap().build();

    assert_eq!(selector.try_includes("src/a.rs"), Ok(true));
    assert_eq!(selector.try_includes("doc/a.md"), Ok(false));
    assert_eq!(selector.try_includes("src/../../a"), Err(PathError::EscapesRoot));
}

#[test]
fn list_without_files_is_an_error() {
    let selector = FileSelector::builder().path("src").unwrap().build();
    let entries = vec![dir("./"), dir("./src"), file("./README.md")];

    assert_eq!(selector.list(&entries), Err(ListError::NoFiles));
    assert_eq!(selector.list(&Vec::new()), Err(ListError::NoFiles));
}
