//! The path grammar: names, extensions, stems, parents and segments.

use file_corpus::paths::{
    name_extension, name_stem, parent_path, path_extension, path_file_name, path_match_segs,
};
use file_corpus::text::{chars_vec, string_from_chars};

fn chars(s: &str) -> Vec<char> {
    chars_vec(s)
}

fn string(v: &Vec<char>) -> String {
    string_from_chars(v)
}

#[test]
fn file_names_follow_the_last_separator() {
    assert_eq!(string(&path_file_name(&chars("/a/b/c.txt"))), "c.txt");
    assert_eq!(string(&path_file_name(&chars("C:\\x\\y.rs"))), "y.rs");
    assert_eq!(string(&path_file_name(&chars("bare.md"))), "bare.md");
}

#[test]
fn extensions_need_a_dot_past_the_first_character() {
    assert_eq!(string(&path_extension(&chars("/a/b/c.txt"))), "txt");
    assert_eq!(string(&path_extension(&chars("/a/archive.tar.gz"))), "gz");
    assert_eq!(string(&path_extension(&chars("/a/.gitignore"))), "");
    assert_eq!(string(&path_extension(&chars("/a/nodot"))), "");
}

#[test]
fn stems_drop_only_the_final_extension() {
    let name = chars("archive.tar.gz");
    assert_eq!(string(&name_stem(&name)), "archive.tar");
    assert_eq!(string(&name_extension(&name)), "gz");
    let hidden = chars(".bashrc");
    assert_eq!(string(&name_stem(&hidden)), ".bashrc");
    assert_eq!(string(&name_extension(&hidden)), "");
}

#[test]
fn parents_keep_root_separators() {
    let p = parent_path(&chars("/a/b/c.txt")).unwrap();
    assert_eq!(string(&p), "/a/b");
    let root_child = parent_path(&chars("/c.txt")).unwrap();
    assert_eq!(string(&root_child), "/");
    let drive_child = parent_path(&chars("C:\\c.txt")).unwrap();
    assert_eq!(string(&drive_child), "C:\\");
    assert!(parent_path(&chars("bare.txt")).is_none());
}

#[test]
fn segments_skip_separators_and_the_drive_prefix() {
    let segs = path_match_segs(&chars("C:\\Users\\docs\\a.txt"));
    let names: Vec<String> = segs.iter().map(string).collect();
    assert_eq!(names, vec!["Users", "docs", "a.txt"]);
    let segs = path_match_segs(&chars("/x//y/z"));
    let names: Vec<String> = segs.iter().map(string).collect();
    assert_eq!(names, vec!["x", "y", "z"]);
}
