//! Rewriting one file's content line by line.
use vstd::prelude::*;
use crate::pattern::{replace_all_matches, substituted, Pattern};
use crate::text::{
    first_index_of, free_of, join_lines, lemma_join_ends, lemma_lines_append, lemma_lines_last,
    lemma_lines_of_join, lemma_lines_single, lines_of, plain_line, strip_cr,
};

verus! {

/// Each line with every match of `pattern` replaced by `template`.
pub open spec fn substitute_lines(
    pattern: Seq<char>,
    template: Seq<char>,
    ls: Seq<Seq<char>>,
) -> Seq<Seq<char>> {
    ls.map_values(|l: Seq<char>| substituted(pattern, l, template))
}

/// The new content of a file: its lines, each substituted and ended by one linefeed.
pub open spec fn rewritten(pattern: Seq<char>, template: Seq<char>, content: Seq<char>) -> Seq<
    char,
> {
    join_lines(substitute_lines(pattern, template, lines_of(content)))
}

/// Relies on String::push: appends one character.
#[verifier::external_body]
pub(crate) fn push_char(s: &mut String, c: char)
    ensures
        final(s)@ == old(s)@.push(c),
{
    s.push(c)
}

/// The file one task rewrites.
pub struct FileControl<'a> {
    pub path: &'a str,
}

impl<'a> FileControl<'a> {
    pub fn new(path: &'a str) -> (r: Self)
        ensures
            r.path@ == path@,
    {
        Self { path }
    }
}

/// Appends the substitution of `line` and a linefeed to `out`.
fn emit_line(out: &mut String, pattern: &Pattern, template: &str, line: &str)
    ensures
        final(out)@ == old(out)@ + substituted(pattern@, line@, template@).push('\n'),
{
    let s = replace_all_matches(pattern, line, template);
    out.append(s.as_str());
    push_char(out, '\n');
}

/// Rewrites `content`: splits it into lines (a carriage return before a
/// linefeed is dropped), replaces every match of `pattern` in each line by
/// `template`, and ends every line with one linefeed.
pub fn rewrite(pattern: &Pattern, template: &str, content: &str) -> (r: String)
    ensures
        r@ == rewritten(pattern@, template@, content@),
        content@.len() > 0 ==> r@.len() > 0 && r@.last() == '\n',
        content@.len() == 0 ==> r@.len() == 0,
{
    let ghost p = pattern@;
    let ghost t = template@;
    let ghost text = content@;
    let n: usize = content.unicode_len();
    let mut out = String::new();
    let mut cur = String::new();
    let mut cur_len: usize = 0;
    let mut ends_cr: bool = false;
    let ghost mut start: int = 0;
    for c in it: content.chars()
        invariant
            it.seq() == text,
            text == content@,
            n == text.len(),
            p == pattern@,
            t == template@,
            0 <= start <= it.index(),
            cur@ == text.subrange(start, it.index() as int),
            cur_len == cur@.len(),
            ends_cr == (cur@.len() > 0 && cur@.last() == '\r'),
            free_of(cur@, '\n'),
            start == 0 || text[start - 1] == '\n',
            out@ == join_lines(substitute_lines(p, t, lines_of(text.take(start)))),
    {
        let ghost i = it.index() as int;
        if c == '\n' {
            let line: &str = if ends_cr {
                cur.as_str().substring_char(0, cur_len - 1)
            } else {
                cur.as_str()
            };
            assert(line@ == strip_cr(cur@));
            emit_line(&mut out, pattern, template, line);
            proof {
                let before = text.take(start);
                assert(text.take(i + 1) == before + cur@.push('\n'));
                lemma_lines_append(before, cur@.push('\n'));
                lemma_lines_single(cur@);
                let ls = lines_of(before);
                assert(lines_of(text.take(i + 1)) == ls.push(strip_cr(cur@)));
                let ms = substitute_lines(p, t, ls.push(strip_cr(cur@)));
                assert(ms.drop_last() == substitute_lines(p, t, ls));
                start = i + 1;
            }
            cur = String::new();
            cur_len = 0;
            ends_cr = false;
        } else {
            push_char(&mut cur, c);
            cur_len = cur_len + 1;
            ends_cr = c == '\r';
            proof {
                assert(cur@ == text.subrange(start, i + 1));
            }
        }
    }
    proof {
        let before = text.take(start);
        assert(text == before + cur@);
        lemma_lines_append(before, cur@);
        lemma_lines_last(cur@);
    }
    if cur_len > 0 {
        emit_line(&mut out, pattern, template, cur.as_str());
        proof {
            let ls = lines_of(text.take(start));
            assert(lines_of(text) == ls.push(cur@));
            let ms = substitute_lines(p, t, ls.push(cur@));
            assert(ms.drop_last() == substitute_lines(p, t, ls));
        }
    } else {
        proof {
            assert(lines_of(text) == lines_of(text.take(start)));
            assert(text.take(start) == text);
        }
    }
    proof {
        lemma_join_ends(substitute_lines(p, t, lines_of(text)));
        if text.len() > 0 {
            lemma_lines_nonempty(text);
        }
    }
    out
}

/// A non-empty text has at least one line.
pub proof fn lemma_lines_nonempty(s: Seq<char>)
    requires
        s.len() > 0,
    ensures
        lines_of(s).len() > 0,
{
    let k = first_index_of(s, '\n');
    if k < s.len() {
        assert(lines_of(s)[0] == strip_cr(s.take(k as int)));
    }
}

/// When no substituted line holds a linefeed or ends with a carriage return,
/// the rewritten content has exactly as many lines as the original, the
/// i-th being the substitution of the original's i-th line.
pub proof fn lemma_rewritten_lines(pattern: Seq<char>, template: Seq<char>, content: Seq<char>)
    requires
        forall|i: int|
            0 <= i < lines_of(content).len() ==> plain_line(
                #[trigger] substituted(pattern, lines_of(content)[i], template),
            ),
    ensures
        lines_of(rewritten(pattern, template, content)) == substitute_lines(
            pattern,
            template,
            lines_of(content),
        ),
        lines_of(rewritten(pattern, template, content)).len() == lines_of(content).len(),
{
    let ms = substitute_lines(pattern, template, lines_of(content));
    assert forall|i: int| 0 <= i < ms.len() implies plain_line(#[trigger] ms[i]) by {
        assert(ms[i] == substituted(pattern, lines_of(content)[i], template));
    }
    lemma_lines_of_join(ms);
}

/// Rewriting twice gives what rewriting once gave, when the substitution
/// leaves every rewritten line as it is (the replacement brings no further
/// match) and those lines hold no linefeed and end with no carriage return.
pub proof fn lemma_rewrite_idempotent(pattern: Seq<char>, template: Seq<char>, content: Seq<char>)
    requires
        forall|i: int|
            0 <= i < lines_of(content).len() ==> {
                let l = #[trigger] substituted(pattern, lines_of(content)[i], template);
                plain_line(l) && substituted(pattern, l, template) == l
            },
    ensures
        rewritten(pattern, template, rewritten(pattern, template, content)) == rewritten(
            pattern,
            template,
            content,
        ),
{
    let ms = substitute_lines(pattern, template, lines_of(content));
    lemma_rewritten_lines(pattern, template, content);
    let again = substitute_lines(pattern, template, ms);
    assert(again == ms);
}

} // verus!
