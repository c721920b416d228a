use devignite::paths::{file_name_of, join};
use devignite::text::{
    chars_of, contains_str, ends_with_str, file_stem_str, lines_chars, replace_str, string_of,
    trim_end_matches_str, trim_str,
};

fn lines(s: &str) -> Vec<String> {
    lines_chars(&chars_of(s)).iter().map(|l| string_of(l)).collect()
}

#[test]
fn trim_removes_unicode_whitespace_on_both_ends() {
    assert_eq!(trim_str("  \t abc def \n"), "abc def");
    assert_eq!(trim_str("\u{3000}x\u{a0}"), "x");
    assert_eq!(trim_str("   "), "");
}

#[test]
fn lines_follow_str_lines() {
    assert_eq!(lines("a\nb\r\nc"), vec!["a", "b", "c"]);
    assert_eq!(lines("a\n"), vec!["a"]);
    assert_eq!(lines(""), Vec::<String>::new());
    assert_eq!(lines("x\r"), vec!["x\r"]);
    assert_eq!(lines("\n\n"), vec!["", ""]);
    let s = "one\r\ntwo\n\nthree";
    let expected: Vec<String> = s.lines().map(|l| l.to_string()).collect();
    assert_eq!(lines(s), expected);
}

#[test]
fn contains_and_ends_with() {
    assert!(contains_str("export PATH=x", "PATH"));
    assert!(!contains_str("abc", "abd"));
    assert!(contains_str("abc", ""));
    assert!(ends_with_str("archive.tar.gz", ".tar.gz"));
    assert!(!ends_with_str("gz", ".tar.gz"));
}

#[test]
fn replace_is_left_to_right() {
    assert_eq!(replace_str("/opt/rustc/bin/rustc", "rustc", "cargo"), "/opt/cargo/bin/cargo");
    assert_eq!(replace_str("aaa", "aa", "b"), "ba");
    assert_eq!(replace_str("none", "rustc", "cargo"), "none");
}

#[test]
fn trim_end_matches_repeats() {
    assert_eq!(trim_end_matches_str("node.exe.exe", ".exe"), "node");
    assert_eq!(trim_end_matches_str("node", ".exe"), "node");
}

#[test]
fn file_stem_matches_path_file_stem() {
    assert_eq!(file_stem_str("python3.11"), "python3");
    assert_eq!(file_stem_str(".bashrc"), ".bashrc");
    assert_eq!(file_stem_str("foo.tar.gz"), "foo.tar");
    assert_eq!(file_stem_str("node"), "node");
    assert_eq!(file_stem_str("foo."), "foo");
    assert_eq!(file_stem_str(".."), "..");
}

#[test]
fn join_follows_path_join() {
    assert_eq!(join("/home/u", ".devignite", false), "/home/u/.devignite");
    assert_eq!(join("/home/u/", "x", false), "/home/u/x");
    assert_eq!(join("", "x", false), "x");
    assert_eq!(join("/home/u", "/etc", false), "/etc");
    assert_eq!(file_name_of("/tmp/a/b.tmp", false), "b.tmp");
    assert_eq!(file_name_of("b.tmp", false), "b.tmp");
    assert_eq!(file_name_of("a\\b.tmp", false), "a\\b.tmp");
}

#[test]
fn join_follows_windows_path_join() {
    assert_eq!(join("C:\\Users\\u", ".devignite", true), "C:\\Users\\u\\.devignite");
    assert_eq!(join("C:\\Users\\u\\", "x", true), "C:\\Users\\u\\x");
    assert_eq!(join("C:\\Users\\u/", "x", true), "C:\\Users\\u/x");
    assert_eq!(join("C:", "x", true), "C:x");
    assert_eq!(join("", "x", true), "x");
    assert_eq!(join("C:\\Users", "D:\\data", true), "D:\\data");
    assert_eq!(join("C:\\Users", "\\\\srv\\share", true), "\\\\srv\\share");
    assert_eq!(join("C:\\Users", "\\Windows", true), "C:\\Windows");
    assert_eq!(join("\\tmp", "\\Windows", true), "\\Windows");
    assert_eq!(file_name_of("C:\\t\\a/b.tmp", true), "b.tmp");
    assert_eq!(file_name_of("C:\\t\\b.tmp", true), "b.tmp");
}
