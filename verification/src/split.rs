//! Splitting text into lines, fields and tokens.

use crate::search::matches_at;
use crate::search::occurs_at;
use crate::text::prefix_len;
use crate::text::scan_prefix;
use crate::text::strip_prefix_of;
use crate::text::CharClass;
use vstd::prelude::*;
use vstd::slice::slice_subrange;
use vstd::slice::slice_to_vec;

verus! {

/// The line feed character.
pub const LINE_FEED: char = '\n';

/// The carriage return character.
pub const CARRIAGE_RETURN: char = '\r';

/// `line` without the carriage return at its end, if it has one.
pub open spec fn without_carriage_return(line: Seq<char>) -> Seq<char> {
    if line.len() > 0 && line.last() == CARRIAGE_RETURN {
        line.drop_last()
    } else {
        line
    }
}

/// The lines of a text. A line ends at a line feed, or at a carriage return
/// directly followed by a line feed; neither belongs to the line. What follows
/// the last line feed is a line of its own unless it is empty.
pub open spec fn lines_of(text: Seq<char>) -> Seq<Seq<char>>
    decreases text.len(),
{
    let n = prefix_len(text, CharClass::Except(LINE_FEED));
    if text.len() == 0 {
        Seq::empty()
    } else if n < text.len() {
        seq![without_carriage_return(text.take(n as int))] + lines_of(text.skip(n as int + 1))
    } else {
        seq![text]
    }
}

/// The lines that a vector of character vectors holds.
pub open spec fn line_views(lines: Seq<Vec<char>>) -> Seq<Seq<char>> {
    lines.map_values(|line: Vec<char>| line@)
}

/// Splits a text into its lines.
pub fn split_lines(text: &[char]) -> (lines: Vec<Vec<char>>)
    ensures
        line_views(lines@) == lines_of(text@),
{
    let mut lines: Vec<Vec<char>> = Vec::new();
    let mut pos: usize = 0;
    assert(text@.skip(0) =~= text@);
    assert(line_views(lines@) + lines_of(text@.skip(0)) =~= lines_of(text@));
    while pos < text.len()
        invariant
            pos <= text.len(),
            lines_of(text@) == line_views(lines@) + lines_of(text@.skip(pos as int)),
        decreases text.len() - pos,
    {
        let n = scan_prefix(text, pos, CharClass::Except(LINE_FEED));
        let ghost rest = text@.skip(pos as int);
        let ghost before = line_views(lines@);
        if pos + n < text.len() {
            let end = if n > 0 && text[pos + n - 1] == CARRIAGE_RETURN {
                pos + n - 1
            } else {
                pos + n
            };
            let line = slice_to_vec(slice_subrange(text, pos, end));
            proof {
                assert(rest.take(n as int) =~= text@.subrange(pos as int, pos + n));
                assert(line@ =~= without_carriage_return(rest.take(n as int)));
                assert(rest.skip(n + 1) =~= text@.skip(pos + n + 1));
            }
            lines.push(line);
            proof {
                assert(line_views(lines@) =~= before.push(line@));
                assert(line_views(lines@) + lines_of(text@.skip(pos + n + 1)) =~= before
                    + lines_of(rest));
            }
            pos = pos + n + 1;
        } else {
            let line = slice_to_vec(slice_subrange(text, pos, text.len()));
            proof {
                assert(line@ =~= rest);
            }
            lines.push(line);
            proof {
                assert(line_views(lines@) =~= before.push(line@));
                assert(text@.skip(text.len() as int).len() == 0);
                assert(line_views(lines@) + lines_of(text@.skip(text.len() as int)) =~= before
                    + lines_of(rest));
            }
            pos = text.len();
        }
    }
    assert(text@.skip(pos as int).len() == 0);
    assert(line_views(lines@) + lines_of(text@.skip(pos as int)) =~= line_views(lines@));
    lines
}

/// What `f` gives for the items, in order, the items for which it gives
/// nothing left out.
pub open spec fn gather<A, B>(items: Seq<A>, f: spec_fn(A) -> Option<B>) -> Seq<B>
    decreases items.len(),
{
    if items.len() == 0 {
        Seq::empty()
    } else {
        let front = gather(items.drop_last(), f);
        match f(items.last()) {
            Some(b) => front.push(b),
            None => front,
        }
    }
}

/// Position of the first item for which `p` holds.
pub open spec fn first_where<T>(items: Seq<T>, p: spec_fn(T) -> bool) -> Option<int>
    decreases items.len(),
{
    if items.len() == 0 {
        None
    } else {
        match first_where(items.drop_last(), p) {
            Some(i) => Some(i),
            None => if p(items.last()) {
                Some(items.len() - 1)
            } else {
                None
            },
        }
    }
}

/// `first_where` returns the least position whose item satisfies `p`, and
/// `None` exactly when no item does.
pub proof fn lemma_first_where<T>(items: Seq<T>, p: spec_fn(T) -> bool)
    ensures
        match first_where(items, p) {
            Some(i) => 0 <= i < items.len() && p(items[i]) && forall|j: int|
                0 <= j < i ==> !p(#[trigger] items[j]),
            None => forall|j: int| 0 <= j < items.len() ==> !p(#[trigger] items[j]),
        },
    decreases items.len(),
{
    if items.len() > 0 {
        let front = items.drop_last();
        lemma_first_where(front, p);
        match first_where(front, p) {
            Some(i) => {
                assert(front[i] == items[i]);
                assert forall|j: int| 0 <= j < i implies !p(#[trigger] items[j]) by {
                    assert(front[j] == items[j]);
                }
            },
            None => {
                assert forall|j: int| 0 <= j < items.len() - 1 implies !p(#[trigger] items[j]) by {
                    assert(front[j] == items[j]);
                }
            },
        }
    }
}

/// An item that satisfies `p` while none before it does is the one that
/// `first_where` finds.
pub proof fn lemma_first_where_is<T>(items: Seq<T>, p: spec_fn(T) -> bool, i: int)
    requires
        0 <= i < items.len(),
        p(items[i]),
        forall|j: int| 0 <= j < i ==> !p(#[trigger] items[j]),
    ensures
        first_where(items, p) == Some(i),
{
    lemma_first_where(items, p);
}

/// Where no item satisfies `p`, `first_where` finds none.
pub proof fn lemma_first_where_none<T>(items: Seq<T>, p: spec_fn(T) -> bool)
    requires
        forall|j: int| 0 <= j < items.len() ==> !p(#[trigger] items[j]),
    ensures
        first_where(items, p) is None,
{
    lemma_first_where(items, p);
}

/// The `n`-th piece of `s` when it is cut at every `sep`, counting from 0.
pub open spec fn field(s: Seq<char>, sep: char, n: nat) -> Option<Seq<char>>
    decreases n,
{
    let len = prefix_len(s, CharClass::Except(sep));
    if n == 0 {
        Some(s.take(len as int))
    } else if len < s.len() {
        field(s.skip(len as int + 1), sep, (n - 1) as nat)
    } else {
        None
    }
}

/// The piece with the given number as a sequence, if there is one.
pub open spec fn slice_view(r: Option<&[char]>) -> Option<Seq<char>> {
    match r {
        Some(v) => Some(v@),
        None => None,
    }
}

/// Computes `field`.
pub fn field_slice(s: &[char], sep: char, n: usize) -> (r: Option<&[char]>)
    ensures
        slice_view(r) == field(s@, sep, n as nat),
{
    let mut pos: usize = 0;
    let mut k: usize = 0;
    assert(s@.skip(0) =~= s@);
    loop
        invariant
            pos <= s.len(),
            k <= n,
            field(s@, sep, n as nat) == field(s@.skip(pos as int), sep, (n - k) as nat),
        decreases n - k,
    {
        let len = scan_prefix(s, pos, CharClass::Except(sep));
        if k == n {
            assert(s@.skip(pos as int).take(len as int) =~= s@.subrange(pos as int, pos + len));
            return Some(slice_subrange(s, pos, pos + len));
        }
        if pos + len >= s.len() {
            return None;
        }
        assert(s@.skip(pos as int).skip(len + 1) =~= s@.skip(pos + len + 1));
        pos = pos + len + 1;
        k += 1;
    }
}

/// The `n`-th piece of `s` when it is cut at runs of whitespace, counting from
/// 0 and leaving out empty pieces.
pub open spec fn token(s: Seq<char>, n: nat) -> Option<Seq<char>>
    decreases n,
{
    let t = strip_prefix_of(s, CharClass::Whitespace);
    let len = prefix_len(t, CharClass::NonWhitespace);
    if len == 0 {
        None
    } else if n == 0 {
        Some(t.take(len as int))
    } else {
        token(t.skip(len as int), (n - 1) as nat)
    }
}

/// Computes `token`.
pub fn token_slice(s: &[char], n: usize) -> (r: Option<&[char]>)
    ensures
        slice_view(r) == token(s@, n as nat),
{
    let mut pos: usize = 0;
    let mut k: usize = 0;
    assert(s@.skip(0) =~= s@);
    loop
        invariant
            pos <= s.len(),
            k <= n,
            token(s@, n as nat) == token(s@.skip(pos as int), (n - k) as nat),
        decreases n - k,
    {
        let white = scan_prefix(s, pos, CharClass::Whitespace);
        let start = pos + white;
        assert(strip_prefix_of(s@.skip(pos as int), CharClass::Whitespace) =~= s@.skip(
            start as int,
        ));
        let len = scan_prefix(s, start, CharClass::NonWhitespace);
        if len == 0 {
            return None;
        }
        if k == n {
            assert(s@.skip(start as int).take(len as int) =~= s@.subrange(
                start as int,
                start + len,
            ));
            return Some(slice_subrange(s, start, start + len));
        }
        assert(s@.skip(start as int).skip(len as int) =~= s@.skip(start + len));
        pos = start + len;
        k += 1;
    }
}

/// `s` with every occurrence of `pat` taken out, the occurrences found from
/// left to right and not overlapping.
pub open spec fn remove_all(s: Seq<char>, pat: Seq<char>) -> Seq<char>
    decreases s.len(),
{
    if pat.len() == 0 || s.len() < pat.len() {
        s
    } else if occurs_at(s, pat, 0) {
        remove_all(s.skip(pat.len() as int), pat)
    } else {
        seq![s[0]] + remove_all(s.skip(1), pat)
    }
}

/// Computes `remove_all`.
pub fn remove_all_slice(s: &[char], pat: &[char]) -> (r: Vec<char>)
    ensures
        r@ == remove_all(s@, pat@),
{
    if pat.len() == 0 {
        return slice_to_vec(s);
    }
    let mut out: Vec<char> = Vec::new();
    let mut pos: usize = 0;
    assert(s@.skip(0) =~= s@);
    assert(out@ + remove_all(s@.skip(0), pat@) =~= remove_all(s@, pat@));
    while pos < s.len()
        invariant
            pos <= s.len(),
            pat.len() > 0,
            remove_all(s@, pat@) == out@ + remove_all(s@.skip(pos as int), pat@),
        decreases s.len() - pos,
    {
        let ghost rest = s@.skip(pos as int);
        let ghost before = out@;
        if matches_at(s, pat, pos) {
            proof {
                assert(rest.subrange(0, pat.len() as int) =~= s@.subrange(
                    pos as int,
                    pos + pat.len(),
                ));
                assert(occurs_at(rest, pat@, 0));
                assert(rest.skip(pat.len() as int) =~= s@.skip(pos + pat.len()));
            }
            pos = pos + pat.len();
        } else {
            proof {
                if rest.len() >= pat.len() {
                    assert(rest.subrange(0, pat.len() as int) =~= s@.subrange(
                        pos as int,
                        pos + pat.len(),
                    ));
                    assert(!occurs_at(rest, pat@, 0));
                    assert(rest.skip(1) =~= s@.skip(pos + 1));
                    assert(before.push(s@[pos as int]) + remove_all(rest.skip(1), pat@) =~= before
                        + remove_all(rest, pat@));
                }
            }
            if s.len() - pos < pat.len() {
                proof {
                    lemma_remove_all_short(rest, pat@);
                }
                let mut k: usize = pos;
                while k < s.len()
                    invariant
                        pos <= k <= s.len(),
                        out@ == before + s@.subrange(pos as int, k as int),
                    decreases s.len() - k,
                {
                    out.push(s[k]);
                    k += 1;
                }
                proof {
                    assert(s@.subrange(pos as int, s.len() as int) =~= rest);
                    assert(s@.skip(s.len() as int).len() == 0);
                    assert(out@ + remove_all(s@.skip(s.len() as int), pat@) =~= before + rest);
                }
                pos = s.len();
            } else {
                out.push(s[pos]);
                pos = pos + 1;
            }
        }
    }
    assert(s@.skip(pos as int).len() == 0);
    assert(out@ + remove_all(s@.skip(pos as int), pat@) =~= out@);
    out
}

/// A text shorter than the pattern holds no occurrence of it.
pub proof fn lemma_remove_all_short(s: Seq<char>, pat: Seq<char>)
    requires
        s.len() < pat.len(),
    ensures
        remove_all(s, pat) == s,
{
}

} // verus!
