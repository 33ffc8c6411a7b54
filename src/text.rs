//! Character-sequence models shared by the parser and the rewriter.
use vstd::prelude::*;

verus! {

/// Index of the first `c` in `s`, or `s.len()` when `s` holds none.
pub open spec fn first_index_of(s: Seq<char>, c: char) -> nat
    decreases s.len(),
{
    if s.len() == 0 {
        0
    } else if s[0] == c {
        0
    } else {
        1 + first_index_of(s.drop_first(), c)
    }
}

/// `s` does not hold `c`.
pub open spec fn free_of(s: Seq<char>, c: char) -> bool {
    forall|j: int| 0 <= j < s.len() ==> s[j] != c
}

/// `l` without one trailing carriage return, if it has one.
pub open spec fn strip_cr(l: Seq<char>) -> Seq<char> {
    if l.len() > 0 && l.last() == '\r' {
        l.drop_last()
    } else {
        l
    }
}

/// The lines of a text: the pieces between linefeeds, with a carriage return
/// that stands right before a linefeed dropped. A last piece that no linefeed
/// ends counts when it is not empty; an empty text has no lines.
pub open spec fn lines_of(s: Seq<char>) -> Seq<Seq<char>>
    decreases s.len(),
{
    if s.len() == 0 {
        seq![]
    } else {
        let k = first_index_of(s, '\n');
        if k >= s.len() {
            seq![s]
        } else {
            seq![strip_cr(s.take(k as int))] + lines_of(s.skip(k as int + 1))
        }
    }
}

/// Every line followed by one linefeed, concatenated.
pub open spec fn join_lines(ls: Seq<Seq<char>>) -> Seq<char>
    decreases ls.len(),
{
    if ls.len() == 0 {
        seq![]
    } else {
        join_lines(ls.drop_last()) + ls.last() + seq!['\n']
    }
}

/// A line that reads back as itself: no linefeed in it, no carriage return at its end.
pub open spec fn plain_line(l: Seq<char>) -> bool {
    free_of(l, '\n') && !(l.len() > 0 && l.last() == '\r')
}

pub proof fn lemma_first_index_bounds(s: Seq<char>, c: char)
    ensures
        first_index_of(s, c) <= s.len(),
        free_of(s.take(first_index_of(s, c) as int), c),
        first_index_of(s, c) < s.len() ==> s[first_index_of(s, c) as int] == c,
    decreases s.len(),
{
    if s.len() > 0 && s[0] != c {
        lemma_first_index_bounds(s.drop_first(), c);
        let k = first_index_of(s, c) as int;
        assert forall|j: int| 0 <= j < k implies s.take(k)[j] != c by {
            if j > 0 {
                assert(s.take(k)[j] == s.drop_first().take(k - 1)[j - 1]);
            }
        }
    }
}

/// The first `c` stands at `k` when none comes before `k` and `k` ends `s` or holds `c`.
pub proof fn lemma_first_index_at(s: Seq<char>, c: char, k: int)
    requires
        0 <= k <= s.len(),
        forall|j: int| 0 <= j < k ==> s[j] != c,
        k == s.len() || s[k] == c,
    ensures
        first_index_of(s, c) == k,
    decreases s.len(),
{
    if s.len() > 0 && k > 0 {
        lemma_first_index_at(s.drop_first(), c, k - 1);
    }
}

/// A text that ends with a linefeed splits apart from what follows it.
pub proof fn lemma_lines_append(a: Seq<char>, b: Seq<char>)
    requires
        a.len() == 0 || a.last() == '\n',
    ensures
        lines_of(a + b) == lines_of(a) + lines_of(b),
    decreases a.len(),
{
    if a.len() == 0 {
        assert(a + b == b);
        assert(lines_of(a) + lines_of(b) == lines_of(b));
    } else {
        let k = first_index_of(a, '\n');
        lemma_first_index_bounds(a, '\n');
        assert(k < a.len()) by {
            if k >= a.len() {
                assert(a.take(a.len() as int) == a);
                assert(a[a.len() - 1] == '\n');
            }
        }
        let ab = a + b;
        assert forall|j: int| 0 <= j < k implies ab[j] != '\n' by {
            assert(a.take(k as int)[j] == ab[j]);
        }
        lemma_first_index_at(ab, '\n', k as int);
        assert(ab.take(k as int) == a.take(k as int));
        assert(ab.skip(k as int + 1) == a.skip(k as int + 1) + b);
        lemma_lines_append(a.skip(k as int + 1), b);
        assert(lines_of(ab) == seq![strip_cr(a.take(k as int))] + lines_of(a.skip(k as int + 1) + b));
        assert(lines_of(a) == seq![strip_cr(a.take(k as int))] + lines_of(a.skip(k as int + 1)));
        assert(lines_of(ab) == lines_of(a) + lines_of(b));
    }
}

/// A piece with no linefeed, followed by one, reads as one line.
pub proof fn lemma_lines_single(l: Seq<char>)
    requires
        free_of(l, '\n'),
    ensures
        lines_of(l.push('\n')) == seq![strip_cr(l)],
{
    let s = l.push('\n');
    lemma_first_index_at(s, '\n', l.len() as int);
    assert(s.take(l.len() as int) == l);
    assert(s.skip(l.len() as int + 1).len() == 0);
    assert(lines_of(s.skip(l.len() as int + 1)) == Seq::<Seq<char>>::empty());
}

/// A non-empty piece with no linefeed is one line.
pub proof fn lemma_lines_last(l: Seq<char>)
    requires
        free_of(l, '\n'),
    ensures
        lines_of(l) == (if l.len() == 0 { Seq::<Seq<char>>::empty() } else { seq![l] }),
{
    if l.len() > 0 {
        lemma_first_index_at(l, '\n', l.len() as int);
    }
}

/// A joined text is empty or ends with a linefeed.
pub proof fn lemma_join_ends(ls: Seq<Seq<char>>)
    ensures
        ls.len() == 0 ==> join_lines(ls).len() == 0,
        ls.len() > 0 ==> join_lines(ls).len() > 0 && join_lines(ls).last() == '\n',
{
}

/// Joining plain lines and splitting the result gives the lines back.
pub proof fn lemma_lines_of_join(ls: Seq<Seq<char>>)
    requires
        forall|i: int| 0 <= i < ls.len() ==> plain_line(#[trigger] ls[i]),
    ensures
        lines_of(join_lines(ls)) == ls,
    decreases ls.len(),
{
    if ls.len() > 0 {
        let init = ls.drop_last();
        let l = ls.last();
        lemma_lines_of_join(init);
        lemma_join_ends(init);
        assert(plain_line(ls[ls.len() - 1]));
        assert(join_lines(ls) == join_lines(init) + l.push('\n'));
        lemma_lines_append(join_lines(init), l.push('\n'));
        lemma_lines_single(l);
        assert(strip_cr(l) == l);
        assert(init.push(l) == ls);
    }
}

} // verus!
