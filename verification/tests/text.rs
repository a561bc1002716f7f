use gentle::path::{join_text, NormalPath, PathError};
use gentle::text::{
    append_chars, chars_of, copy_chars, keep_nonempty, lines_of, same_chars, split_chars,
    starts_with, string_of, tail_of, trim,
};
use gentle::timetable::{key_of, table_put, table_take, Timed};

fn chars(s: &str) -> Vec<char> {
    s.chars().collect()
}

fn rows(items: &[&str]) -> Vec<Vec<char>> {
    items.iter().map(|s| chars(s)).collect()
}

#[test]
fn strings_and_characters_convert_both_ways() {
    assert_eq!(chars_of("héllo/✓"), chars("héllo/✓"));
    assert_eq!(chars_of(""), Vec::<char>::new());
    assert_eq!(string_of(&chars("héllo/✓")), "héllo/✓");
    assert_eq!(copy_chars(&chars("abc")), chars("abc"));
    assert!(same_chars(&chars("abc"), &chars("abc")));
    assert!(!same_chars(&chars("abc"), &chars("abd")));
    assert!(!same_chars(&chars("abc"), &chars("ab")));
}

#[test]
fn split_keeps_empty_pieces() {
    assert_eq!(split_chars(&chars("a/b"), '/'), rows(&["a", "b"]));
    assert_eq!(split_chars(&chars(""), '/'), rows(&[""]));
    assert_eq!(split_chars(&chars("/"), '/'), rows(&["", ""]));
    assert_eq!(split_chars(&chars("a//b/"), '/'), rows(&["a", "", "b", ""]));
    assert_eq!(split_chars(&chars("no separator"), '/'), rows(&["no separator"]));
}

#[test]
fn trim_drops_unicode_whitespace_at_both_ends() {
    assert_eq!(trim(&chars("  a b \t\r\n")), chars("a b"));
    assert_eq!(trim(&chars("\u{a0}\u{2003}x\u{3000}")), chars("x"));
    assert_eq!(trim(&chars(" \n ")), chars(""));
    assert_eq!(trim(&chars("")), chars(""));
    assert_eq!(trim(&chars("tight")), chars("tight"));
}

#[test]
fn lines_are_trimmed_and_blank_ones_can_be_dropped() {
    assert_eq!(lines_of("a\n  b  \r\n\nc"), rows(&["a", "b", "", "c"]));
    assert_eq!(lines_of(""), rows(&[""]));
    assert_eq!(keep_nonempty(lines_of("a\n  b  \r\n\nc\n")), rows(&["a", "b", "c"]));
    assert_eq!(keep_nonempty(rows(&["", ""])), Vec::<Vec<char>>::new());
}

#[test]
fn prefixes_and_tails() {
    assert!(starts_with(&chars("COPY a b"), &chars("COPY ")));
    assert!(starts_with(&chars("abc"), &chars("")));
    assert!(starts_with(&chars("abc"), &chars("abc")));
    assert!(!starts_with(&chars("ab"), &chars("abc")));
    assert!(!starts_with(&chars("xbc"), &chars("ab")));
    assert_eq!(tail_of(&chars("COPY a b"), 5), chars("a b"));
    assert_eq!(tail_of(&chars("abc"), 3), chars(""));
    assert_eq!(tail_of(&chars("abc"), 0), chars("abc"));

    let mut out = chars("ab");
    append_chars(&mut out, &chars("cd"));
    assert_eq!(out, chars("abcd"));
}

#[test]
fn text_joins_like_paths() {
    assert_eq!(join_text("a", "b"), "a/b");
    assert_eq!(join_text("a/", "b"), "a/b");
    assert_eq!(join_text("", "b"), "b");
    assert_eq!(join_text("a", ""), "a/");
    assert_eq!(join_text("a", "/b"), "/b");
    assert_eq!(join_text("/", "b"), "/b");
    assert_eq!(join_text("", ""), "");
}

#[test]
fn normal_paths_parse_join_and_compare() {
    let a = NormalPath::parse("./x/../some//dir/").unwrap();
    assert_eq!(a.len(), 2);
    assert_eq!(a.to_string(), "some/dir");
    assert!(!a.is_rooted());
    assert!(NormalPath::parse("/etc").unwrap().is_rooted());
    assert_eq!(NormalPath::parse("x/../..").err(), Some(PathError::EscapesRoot));
    assert_eq!(NormalPath::empty().len(), 0);
    assert_eq!(NormalPath::empty().to_string(), "");

    let b = NormalPath::parse("foo.txt").unwrap();
    assert_eq!(a.join(&b).to_string(), "some/dir/foo.txt");
    assert_eq!(a.join(&NormalPath::empty()).to_string(), "some/dir");
    assert_eq!(NormalPath::empty().join(&b).to_string(), "foo.txt");
    assert_eq!(a.join(&NormalPath::parse("/abs").unwrap()).to_string(), "/abs");

    let long = NormalPath::parse("some/dir/foo.txt").unwrap();
    assert!(long.prefix_is(2, &a));
    assert!(!long.prefix_is(1, &a));
    assert!(!long.prefix_is(3, &a));
    assert!(long.prefix_is(0, &NormalPath::empty()));
    assert!(!long.prefix_is(2, &NormalPath::parse("some/dir2").unwrap()));
}

#[test]
fn tables_keep_names_in_order() {
    let entry = |name: &str, time: u64| Timed { name: String::from(name), time };
    let mut table = Vec::new();
    table_put(&mut table, "b", 2);
    table_put(&mut table, "a", 1);
    table_put(&mut table, "c", 3);
    table_put(&mut table, "ab", 4);
    assert_eq!(table, vec![entry("a", 1), entry("ab", 4), entry("b", 2), entry("c", 3)]);

    table_put(&mut table, "b", 20);
    assert_eq!(table, vec![entry("a", 1), entry("ab", 4), entry("b", 20), entry("c", 3)]);

    assert_eq!(table_take(&mut table, "ab"), Some(4));
    assert_eq!(table_take(&mut table, "ab"), None);
    assert_eq!(table_take(&mut table, "zz"), None);
    assert_eq!(table_take(&mut table, ""), None);
    assert_eq!(table, vec![entry("a", 1), entry("b", 20), entry("c", 3)]);
    assert_eq!(key_of("aé"), vec![97, 233]);
    assert_eq!(key_of(""), Vec::<u32>::new());
}
