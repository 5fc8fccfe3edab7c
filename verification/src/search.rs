//! Searching a sequence of characters for a pattern.

use vstd::prelude::*;
use vstd::slice::slice_subrange;

verus! {

/// Whether `pat` stands in `s` at position `i`.
pub open spec fn occurs_at(s: Seq<char>, pat: Seq<char>, i: int) -> bool {
    0 <= i && i + pat.len() <= s.len() && s.subrange(i, i + pat.len()) == pat
}

/// Position of the first occurrence of `pat` in `s` at or after `from`.
pub open spec fn find_from(s: Seq<char>, pat: Seq<char>, from: int) -> Option<int>
    decreases s.len() + 1 - from,
{
    if 0 <= from && from + pat.len() <= s.len() {
        if occurs_at(s, pat, from) {
            Some(from)
        } else {
            find_from(s, pat, from + 1)
        }
    } else {
        None
    }
}

/// Position of the first occurrence of `pat` in `s`.
pub open spec fn find(s: Seq<char>, pat: Seq<char>) -> Option<int> {
    find_from(s, pat, 0)
}

/// Whether `pat` occurs somewhere in `s`.
pub open spec fn contains(s: Seq<char>, pat: Seq<char>) -> bool {
    find(s, pat) is Some
}

/// Whether `s` begins with `pat`.
pub open spec fn starts_with(s: Seq<char>, pat: Seq<char>) -> bool {
    occurs_at(s, pat, 0)
}

/// Whether `s` ends with `pat`.
pub open spec fn ends_with(s: Seq<char>, pat: Seq<char>) -> bool {
    occurs_at(s, pat, s.len() - pat.len())
}

/// `find_from` returns the least position at or after `from` at which `pat`
/// occurs, and `None` exactly when there is no such position.
pub proof fn lemma_find_from(s: Seq<char>, pat: Seq<char>, from: int)
    requires
        0 <= from,
    ensures
        match find_from(s, pat, from) {
            Some(i) => from <= i && occurs_at(s, pat, i) && forall|j: int|
                from <= j < i ==> !occurs_at(s, pat, j),
            None => forall|j: int| from <= j ==> !occurs_at(s, pat, j),
        },
    decreases s.len() + 1 - from,
{
    if from + pat.len() <= s.len() && !occurs_at(s, pat, from) {
        lemma_find_from(s, pat, from + 1);
    }
}

/// `find` returns the least position at which `pat` occurs in `s`, and `None`
/// exactly when `pat` occurs nowhere in `s`.
pub proof fn lemma_find(s: Seq<char>, pat: Seq<char>)
    ensures
        match find(s, pat) {
            Some(i) => occurs_at(s, pat, i) && forall|j: int| 0 <= j < i ==> !occurs_at(s, pat, j),
            None => forall|j: int| !occurs_at(s, pat, j),
        },
        contains(s, pat) <==> exists|j: int| occurs_at(s, pat, j),
{
    lemma_find_from(s, pat, 0);
}

/// The position that an executable search reports, as a mathematical integer.
pub open spec fn position(r: Option<usize>) -> Option<int> {
    match r {
        Some(i) => Some(i as int),
        None => None,
    }
}

/// Decides `occurs_at`.
pub fn matches_at(s: &[char], pat: &[char], i: usize) -> (b: bool)
    ensures
        b == occurs_at(s@, pat@, i as int),
{
    if pat.len() > s.len() || i > s.len() - pat.len() {
        return false;
    }
    let mut k: usize = 0;
    while k < pat.len()
        invariant
            k <= pat.len(),
            i + pat.len() <= s.len(),
            forall|j: int| 0 <= j < k ==> s@[i + j] == pat@[j],
        decreases pat.len() - k,
    {
        if s[i + k] != pat[k] {
            assert(s@.subrange(i as int, i + pat.len())[k as int] == s@[i + k]);
            return false;
        }
        k += 1;
    }
    assert(s@.subrange(i as int, i + pat.len()) =~= pat@);
    true
}

/// Finds the first occurrence of `pat` in `s`.
pub fn find_slice(s: &[char], pat: &[char]) -> (r: Option<usize>)
    ensures
        position(r) == find(s@, pat@),
        r matches Some(i) ==> i + pat.len() <= s.len(),
{
    if pat.len() > s.len() {
        return None;
    }
    let last: usize = s.len() - pat.len();
    let mut i: usize = 0;
    while i < last
        invariant
            i <= last,
            last == s.len() - pat.len(),
            find(s@, pat@) == find_from(s@, pat@, i as int),
        decreases last - i,
    {
        if matches_at(s, pat, i) {
            return Some(i);
        }
        i += 1;
    }
    if matches_at(s, pat, last) {
        Some(last)
    } else {
        assert(find_from(s@, pat@, last + 1) is None);
        None
    }
}

/// Decides `contains`.
pub fn contains_slice(s: &[char], pat: &[char]) -> (b: bool)
    ensures
        b == contains(s@, pat@),
{
    find_slice(s, pat).is_some()
}

/// Decides `starts_with`.
pub fn starts_with_slice(s: &[char], pat: &[char]) -> (b: bool)
    ensures
        b == starts_with(s@, pat@),
{
    matches_at(s, pat, 0)
}

/// Decides `ends_with`.
pub fn ends_with_slice(s: &[char], pat: &[char]) -> (b: bool)
    ensures
        b == ends_with(s@, pat@),
{
    if pat.len() > s.len() {
        return false;
    }
    matches_at(s, pat, s.len() - pat.len())
}

/// What a search for a value between an opening and a closing marker finds.
pub enum Delimited {
    /// The opening marker does not occur.
    Absent,
    /// The opening marker occurs, and no closing marker follows it.
    Unclosed,
    /// The text between the first opening marker and the first closing marker
    /// that follows it.
    Value(Seq<char>),
}

/// The text of `s` between the first occurrence of `open` and the first
/// occurrence of `close` after it.
pub open spec fn between(s: Seq<char>, open: Seq<char>, close: Seq<char>) -> Delimited {
    match find(s, open) {
        None => Delimited::Absent,
        Some(i) => {
            let rest = s.skip(i + open.len());
            match find(rest, close) {
                None => Delimited::Unclosed,
                Some(j) => Delimited::Value(rest.take(j)),
            }
        },
    }
}

/// What `between_slice` reports: the outcome of the search with, for a value,
/// the slice that holds it.
pub enum DelimitedSlice<'a> {
    Absent,
    Unclosed,
    Value(&'a [char]),
}

impl<'a> DelimitedSlice<'a> {
    /// The outcome with the value as a sequence.
    pub open spec fn view(self) -> Delimited {
        match self {
            DelimitedSlice::Absent => Delimited::Absent,
            DelimitedSlice::Unclosed => Delimited::Unclosed,
            DelimitedSlice::Value(v) => Delimited::Value(v@),
        }
    }
}

/// Computes `between`.
pub fn between_slice<'a>(s: &'a [char], open: &[char], close: &[char]) -> (r: DelimitedSlice<'a>)
    ensures
        r.view() == between(s@, open@, close@),
{
    match find_slice(s, open) {
        None => DelimitedSlice::Absent,
        Some(i) => {
            let rest = slice_subrange(s, i + open.len(), s.len());
            match find_slice(rest, close) {
                None => DelimitedSlice::Unclosed,
                Some(j) => DelimitedSlice::Value(slice_subrange(rest, 0, j)),
            }
        },
    }
}

} // verus!
