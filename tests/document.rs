use mr::document::{rewrite, FileControl};
use mr::pattern::Pattern;

fn run(origin: &str, template: &str, content: &str) -> String {
    let p = Pattern::new(origin).unwrap();
    rewrite(&p, template, content)
}

#[test]
fn rewrite_every_match_of_every_line() {
    assert_eq!(run("foo", "X", "foo foo\nbar\nfoofoo\n"), "X X\nbar\nXX\n");
}

#[test]
fn rewrite_adds_final_linefeed() {
    assert_eq!(run("a", "b", "a\na"), "b\nb\n");
    assert!(run("zz", "y", "no match here").ends_with('\n'));
}

#[test]
fn rewrite_empty_content() {
    assert_eq!(run("a", "b", ""), "");
}

#[test]
fn rewrite_keeps_empty_lines() {
    assert_eq!(run("a", "b", "\n\n"), "\n\n");
    assert_eq!(run("a", "b", "a\n\na\n"), "b\n\nb\n");
}

#[test]
fn rewrite_collapses_crlf() {
    assert_eq!(run("a", "b", "a\r\nc\r\n"), "b\nc\n");
}

#[test]
fn rewrite_keeps_bare_carriage_return() {
    assert_eq!(run("a", "b", "a\rc"), "b\rc\n");
    assert_eq!(run("a", "b", "x\r"), "x\r\n");
}

#[test]
fn rewrite_line_count_kept() {
    let out = run("o", "0", "one\ntwo\nthree");
    assert_eq!(out.lines().count(), 3);
    assert_eq!(out, "0ne\ntw0\nthree\n");
}

#[test]
fn rewrite_idempotent_when_replacement_has_no_match() {
    let once = run("foo", "bar", "foo x foo\r\ny");
    let twice = run("foo", "bar", &once);
    assert_eq!(once, twice);
}

#[test]
fn rewrite_not_idempotent_when_replacement_matches() {
    let once = run("a", "aa", "a\n");
    let twice = run("a", "aa", &once);
    assert_eq!(once, "aa\n");
    assert_eq!(twice, "aaaa\n");
}

#[test]
fn pattern_keeps_source() {
    let p = Pattern::new("f.o").unwrap();
    assert_eq!(p.as_str(), "f.o");
    assert!(Pattern::new("[").is_err());
}

#[test]
fn file_control_holds_path() {
    let f = FileControl::new("/tmp/a.txt");
    assert_eq!(f.path, "/tmp/a.txt");
}
