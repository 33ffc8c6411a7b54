use mr::pattern::RewriteError;
use mr::replacements::{Replacements, SpecError};

#[test]
fn parse_takes_first_two_segments() {
    let r = Replacements::new("a:b:c").unwrap();
    assert_eq!(r.origin, "a");
    assert_eq!(r.replace, "b");
}

#[test]
fn parse_plain_pair() {
    let r = Replacements::new("foo:XXX").unwrap();
    assert_eq!(r.origin, "foo");
    assert_eq!(r.replace, "XXX");
}

#[test]
fn parse_empty_replacement() {
    let r = Replacements::new("foo:").unwrap();
    assert_eq!(r.origin, "foo");
    assert_eq!(r.replace, "");
}

#[test]
fn parse_without_separator_fails() {
    assert_eq!(Replacements::new("nofoo").unwrap_err(), SpecError::MissingSeparator);
    assert_eq!(Replacements::new("").unwrap_err(), SpecError::MissingSeparator);
}

#[test]
fn parse_empty_origin_fails() {
    assert_eq!(Replacements::new(":bar").unwrap_err(), SpecError::EmptyOrigin);
    assert_eq!(Replacements::new("::").unwrap_err(), SpecError::EmptyOrigin);
}

#[test]
fn parse_non_ascii() {
    let r = Replacements::new("é:ü:x").unwrap();
    assert_eq!(r.origin, "é");
    assert_eq!(r.replace, "ü");
}

#[test]
fn spec_error_messages() {
    assert_eq!(SpecError::MissingSeparator.message(), "Field replace error to parse");
    assert_eq!(SpecError::EmptyOrigin.message(), "origin could not be empty");
}

#[test]
fn replace_all_example_files() {
    let r = Replacements::new("foo:XXX").unwrap();
    assert_eq!(r.replace_all("foo bar\n").unwrap(), "XXX bar\n");
    assert_eq!(r.replace_all("foo baz").unwrap(), "XXX baz\n");
}

#[test]
fn replace_all_invalid_pattern() {
    let r = Replacements::new("foo(:x").unwrap();
    let e = r.replace_all("foo(\n").unwrap_err();
    assert!(matches!(e, RewriteError::InvalidPattern(_)));
    assert!(!e.message().is_empty());
}

#[test]
fn replace_all_capture_groups() {
    let r = Replacements::new("(\\w+)@(\\w+):$2@$1").unwrap();
    assert_eq!(r.replace_all("ab@cd x\n").unwrap(), "cd@ab x\n");
}
