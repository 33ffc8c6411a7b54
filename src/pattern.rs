//! Compiled search patterns, through the `regex` crate.
use vstd::prelude::*;

verus! {

#[verifier::external_type_specification]
#[verifier::external_body]
pub struct ExRegex(regex::Regex);

#[verifier::external_type_specification]
#[verifier::external_body]
pub struct ExRegexError(regex::Error);

/// Whether `regex::Regex::new` accepts `pattern` (its syntax, and the default size limit).
pub uninterp spec fn compiles(pattern: Seq<char>) -> bool;

/// What `regex::Regex::replace_all` makes of `line`: every leftmost-first,
/// non-overlapping match of `pattern` replaced by `template`, with its group
/// references expanded.
pub uninterp spec fn substituted(pattern: Seq<char>, line: Seq<char>, template: Seq<char>) -> Seq<
    char,
>;

/// A search pattern together with its compiled form. Only `compile_regex`
/// makes one, so `re` is always `source` compiled.
pub struct Pattern {
    source: String,
    re: regex::Regex,
}

impl View for Pattern {
    type V = Seq<char>;

    closed spec fn view(&self) -> Seq<char> {
        self.source@
    }
}

/// The ways a rewrite can fail before any file content is produced.
#[derive(Debug, PartialEq, Eq)]
pub enum RewriteError {
    /// The origin does not compile; the text is the pattern engine's reason.
    InvalidPattern(String),
}

impl RewriteError {
    /// The human-readable reason.
    pub fn message(&self) -> (r: String)
        ensures
            r@ == (match self {
                RewriteError::InvalidPattern(m) => m@,
            }),
    {
        match self {
            RewriteError::InvalidPattern(m) => m.clone(),
        }
    }
}

/// Relies on regex::Regex::new: it succeeds or fails on the pattern alone.
#[verifier::external_body]
fn compile_regex(source: &str) -> (r: Result<Pattern, regex::Error>)
    ensures
        r is Ok <==> compiles(source@),
        r is Ok ==> r->Ok_0@ == source@,
{
    match regex::Regex::new(source) {
        Ok(re) => Ok(Pattern { source: source.to_string(), re }),
        Err(e) => Err(e),
    }
}

/// Relies on regex::Error's Display impl for the reason text; nothing is assumed of it.
#[verifier::external_body]
fn regex_error_text(e: &regex::Error) -> String {
    e.to_string()
}

/// Relies on regex::Regex::replace_all with a template string: the result
/// depends on the pattern, the line and the template alone.
#[verifier::external_body]
pub(crate) fn replace_all_matches(p: &Pattern, line: &str, template: &str) -> (r: String)
    ensures
        r@ == substituted(p@, line@, template@),
{
    p.re.replace_all(line, template).into_owned()
}

impl Pattern {
    /// Compiles `source`; fails exactly when the pattern engine refuses it.
    pub fn new(source: &str) -> (r: Result<Pattern, RewriteError>)
        ensures
            r is Ok <==> compiles(source@),
            r is Ok ==> r->Ok_0@ == source@,
    {
        match compile_regex(source) {
            Ok(p) => Ok(p),
            Err(e) => Err(RewriteError::InvalidPattern(regex_error_text(&e))),
        }
    }

    /// The source text of the pattern.
    pub fn as_str(&self) -> (r: &str)
        ensures
            r@ == self@,
    {
        self.source.as_str()
    }
}

} // verus!
