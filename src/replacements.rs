//! The `ORIGIN:REPLACEMENT` specification of a run.
use vstd::prelude::*;
use crate::document::{rewrite, rewritten};
use crate::pattern::{compiles, Pattern, RewriteError};
use crate::text::{first_index_of, free_of, lemma_first_index_at};

verus! {

/// The text has a `:` separator.
pub open spec fn has_separator(s: Seq<char>) -> bool {
    first_index_of(s, ':') < s.len()
}

/// What stands before the first `:`.
pub open spec fn origin_of(s: Seq<char>) -> Seq<char> {
    s.take(first_index_of(s, ':') as int)
}

/// What stands between the first `:` and the next one (or the end).
pub open spec fn replacement_of(s: Seq<char>) -> Seq<char> {
    let rest = s.skip(first_index_of(s, ':') as int + 1);
    rest.take(first_index_of(rest, ':') as int)
}

/// Why a specification string was refused.
#[derive(Debug, Clone, Copy, PartialEq, Eq, Structural)]
pub enum SpecError {
    /// The text holds no `:`.
    MissingSeparator,
    /// Nothing stands before the first `:`.
    EmptyOrigin,
}

impl SpecError {
    /// The human-readable reason.
    pub fn message(&self) -> (r: String)
        ensures
            r@ == (match self {
                SpecError::MissingSeparator => "Field replace error to parse"@,
                SpecError::EmptyOrigin => "origin could not be empty"@,
            }),
    {
        match self {
            SpecError::MissingSeparator => String::from_str("Field replace error to parse"),
            SpecError::EmptyOrigin => String::from_str("origin could not be empty"),
        }
    }
}

/// The origin pattern and the replacement template of a run.
#[derive(Debug)]
pub struct Replacements<'a> {
    pub origin: &'a str,
    pub replace: &'a str,
}

impl<'a> Replacements<'a> {
    /// The invariant of a parsed specification: the origin is not empty.
    pub open spec fn wf(&self) -> bool {
        self.origin@.len() > 0
    }

    /// Parses `ORIGIN:REPLACEMENT[:ignored...]`. Fails when the text has no
    /// `:`, or when the origin before it is empty.
    pub fn new(replace: &'a str) -> (r: Result<Self, SpecError>)
        ensures
            !has_separator(replace@) <==> r == Err::<Self, SpecError>(SpecError::MissingSeparator),
            has_separator(replace@) && origin_of(replace@).len() == 0 <==> r == Err::<
                Self,
                SpecError,
            >(SpecError::EmptyOrigin),
            r is Ok <==> has_separator(replace@) && origin_of(replace@).len() > 0,
            r is Ok ==> r->Ok_0.wf() && r->Ok_0.origin@ == origin_of(replace@)
                && r->Ok_0.replace@ == replacement_of(replace@),
    {
        let n: usize = replace.unicode_len();
        let k = position_of(replace, ':');
        if k == n {
            return Err(SpecError::MissingSeparator);
        }
        let origin = replace.substring_char(0, k);
        let rest = replace.substring_char(k + 1, n);
        let m = position_of(rest, ':');
        let replacement = rest.substring_char(0, m);
        if origin.unicode_len() == 0 {
            return Err(SpecError::EmptyOrigin);
        }
        Ok(Self { origin, replace: replacement })
    }

    /// The new content of a file that holds `content`: every line with each
    /// match of the origin replaced by the template, and ended by one
    /// linefeed. Fails when the origin does not compile.
    pub fn replace_all(&self, content: &str) -> (r: Result<String, RewriteError>)
        ensures
            r is Ok <==> compiles(self.origin@),
            r is Ok ==> r->Ok_0@ == rewritten(self.origin@, self.replace@, content@),
    {
        let pattern = Pattern::new(self.origin)?;
        Ok(rewrite(&pattern, self.replace, content))
    }
}

/// Index of the first `c` in `s`, or the length of `s` when it holds none.
fn position_of(s: &str, c: char) -> (r: usize)
    ensures
        r == first_index_of(s@, c),
        r <= s@.len(),
{
    let n: usize = s.unicode_len();
    let mut pos: usize = n;
    let mut i: usize = 0;
    let mut found: bool = false;
    for ch in it: s.chars()
        invariant
            it.seq() == s@,
            n == s@.len(),
            i == it.index(),
            found ==> pos < i && s@[pos as int] == c && free_of(s@.take(pos as int), c),
            !found ==> pos == n && free_of(s@.take(i as int), c),
    {
        if !found && ch == c {
            pos = i;
            found = true;
        }
        proof {
            if !found {
                assert(s@.take(i + 1) == s@.take(i as int).push(ch));
            }
        }
        i = i + 1;
    }
    proof {
        if found {
            assert forall|j: int| 0 <= j < pos implies s@[j] != c by {
                assert(s@.take(pos as int)[j] == s@[j]);
            }
        } else {
            assert(s@.take(i as int) == s@);
        }
        lemma_first_index_at(s@, c, pos as int);
    }
    pos
}

} // verus!
