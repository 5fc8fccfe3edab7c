//! Text primitives over sequences of characters.
//!
//! Every parser of this crate reads its input as a sequence of `char`s. The
//! spec functions here say what trimming, searching and splitting mean on such
//! a sequence; the executable functions compute them on slices.

use vstd::prelude::*;
use vstd::slice::slice_subrange;

verus! {

/// `String::push` appends one character to the string.
pub assume_specification[ String::push ](s: &mut String, c: char)
    ensures
        final(s)@ == old(s)@.push(c),
;

/// The characters of a string slice, in order.
pub fn to_chars(s: &str) -> (v: Vec<char>)
    ensures
        v@ == s@,
{
    let mut v: Vec<char> = Vec::new();
    for c in it: s.chars()
        invariant
            v@ == it.seq().take(it.index() as int),
            it.seq() == s@,
    {
        v.push(c);
    }
    v
}

/// The string made of the given characters.
pub fn from_chars(v: &[char]) -> (s: String)
    ensures
        s@ == v@,
{
    let mut s = String::new();
    let mut i: usize = 0;
    while i < v.len()
        invariant
            i <= v.len(),
            s@ == v@.take(i as int),
        decreases v.len() - i,
    {
        s.push(v[i]);
        i += 1;
    }
    s
}

/// The lowercase form of a text, as `str::to_lowercase` gives it.
pub uninterp spec fn lowercase_of(s: Seq<char>) -> Seq<char>;

/// `str::to_lowercase` returns the lowercase form of the text as a new string.
/// The form itself follows the Unicode tables and is left unstated here: it is
/// only given the name `lowercase_of`.
pub assume_specification[ str::to_lowercase ](s: &str) -> (r: String)
    ensures
        r@ == lowercase_of(s@),
;

/// The texts that a vector of strings holds.
pub open spec fn string_views(v: Seq<String>) -> Seq<Seq<char>> {
    v.map_values(|s: String| s@)
}

/// The text of an optional string slice.
pub open spec fn str_text(s: Option<&str>) -> Option<Seq<char>> {
    match s {
        Some(t) => Some(t@),
        None => None,
    }
}

/// The text of an optional string.
pub open spec fn string_text(s: Option<String>) -> Option<Seq<char>> {
    match s {
        Some(t) => Some(t@),
        None => None,
    }
}

/// Whether two slices hold the same characters.
pub fn slices_equal(a: &[char], b: &[char]) -> (r: bool)
    ensures
        r == (a@ == b@),
{
    if a.len() != b.len() {
        return false;
    }
    let mut i: usize = 0;
    while i < a.len()
        invariant
            i <= a.len(),
            a.len() == b.len(),
            forall|j: int| 0 <= j < i ==> a@[j] == b@[j],
        decreases a.len() - i,
    {
        if a[i] != b[i] {
            return false;
        }
        i += 1;
    }
    assert(a@ =~= b@);
    true
}

/// Whether `c` has the Unicode property `White_Space`.
pub open spec fn is_whitespace(c: char) -> bool {
    let n = c as u32;
    ||| 0x09 <= n <= 0x0D
    ||| n == 0x20
    ||| n == 0x85
    ||| n == 0xA0
    ||| n == 0x1680
    ||| 0x2000 <= n <= 0x200A
    ||| n == 0x2028
    ||| n == 0x2029
    ||| n == 0x202F
    ||| n == 0x205F
    ||| n == 0x3000
}

/// A set of characters that a scan may run over.
#[derive(Clone, Copy)]
pub enum CharClass {
    /// The characters with the property `White_Space`.
    Whitespace,
    /// All other characters.
    NonWhitespace,
    /// One character.
    Exactly(char),
    /// Every character but one.
    Except(char),
}

impl CharClass {
    /// Whether `c` belongs to the class.
    pub open spec fn has(self, c: char) -> bool {
        match self {
            CharClass::Whitespace => is_whitespace(c),
            CharClass::NonWhitespace => !is_whitespace(c),
            CharClass::Exactly(d) => c == d,
            CharClass::Except(d) => c != d,
        }
    }

    /// Decides `has`.
    pub fn contains(&self, c: char) -> (b: bool)
        ensures
            b == self.has(c),
    {
        let n: u32 = c as u32;
        let white = (0x09 <= n && n <= 0x0D) || n == 0x20 || n == 0x85 || n == 0xA0 || n == 0x1680
            || (0x2000 <= n && n <= 0x200A) || n == 0x2028 || n == 0x2029 || n == 0x202F || n
            == 0x205F || n == 0x3000;
        match self {
            CharClass::Whitespace => white,
            CharClass::NonWhitespace => !white,
            CharClass::Exactly(d) => c == *d,
            CharClass::Except(d) => c != *d,
        }
    }
}

/// Length of the longest prefix of `s` whose characters all belong to `class`.
pub open spec fn prefix_len(s: Seq<char>, class: CharClass) -> nat
    decreases s.len(),
{
    if s.len() > 0 && class.has(s[0]) {
        1 + prefix_len(s.skip(1), class)
    } else {
        0
    }
}

/// Length of the longest suffix of `s` whose characters all belong to `class`.
pub open spec fn suffix_len(s: Seq<char>, class: CharClass) -> nat
    decreases s.len(),
{
    if s.len() > 0 && class.has(s.last()) {
        1 + suffix_len(s.drop_last(), class)
    } else {
        0
    }
}

/// The first `prefix_len(s, class)` characters of `s` belong to `class`, and the
/// one after them, if there is one, does not.
pub proof fn lemma_prefix_len(s: Seq<char>, class: CharClass)
    ensures
        prefix_len(s, class) <= s.len(),
        forall|i: int| 0 <= i < prefix_len(s, class) ==> class.has(#[trigger] s[i]),
        prefix_len(s, class) < s.len() ==> !class.has(s[prefix_len(s, class) as int]),
    decreases s.len(),
{
    if s.len() > 0 && class.has(s[0]) {
        let t = s.skip(1);
        lemma_prefix_len(t, class);
        assert forall|i: int| 0 <= i < prefix_len(s, class) implies class.has(#[trigger] s[i]) by {
            if i > 0 {
                assert(s[i] == t[i - 1]);
            }
        }
        if prefix_len(s, class) < s.len() {
            assert(s[prefix_len(s, class) as int] == t[prefix_len(t, class) as int]);
        }
    }
}

/// The last `suffix_len(s, class)` characters of `s` belong to `class`, and the
/// one before them, if there is one, does not.
pub proof fn lemma_suffix_len(s: Seq<char>, class: CharClass)
    ensures
        suffix_len(s, class) <= s.len(),
        forall|i: int| s.len() - suffix_len(s, class) <= i < s.len() ==> class.has(#[trigger] s[i]),
        suffix_len(s, class) < s.len() ==> !class.has(s[s.len() - suffix_len(s, class) - 1]),
    decreases s.len(),
{
    if s.len() > 0 && class.has(s.last()) {
        let t = s.drop_last();
        lemma_suffix_len(t, class);
        assert forall|i: int| s.len() - suffix_len(s, class) <= i < s.len() implies class.has(
            #[trigger] s[i],
        ) by {
            if i < s.len() - 1 {
                assert(s[i] == t[i]);
            }
        }
        if suffix_len(s, class) < s.len() {
            assert(s[s.len() - suffix_len(s, class) - 1] == t[t.len() - suffix_len(t, class) - 1]);
        }
    }
}

/// A run of `n` characters of `class` at the front of `s`, followed by the end
/// of `s` or by a character outside `class`, is the longest such prefix.
pub proof fn lemma_prefix_len_is(s: Seq<char>, class: CharClass, n: int)
    requires
        0 <= n <= s.len(),
        forall|i: int| 0 <= i < n ==> class.has(#[trigger] s[i]),
        n < s.len() ==> !class.has(s[n]),
    ensures
        prefix_len(s, class) == n,
    decreases s.len(),
{
    if s.len() > 0 && class.has(s[0]) {
        let t = s.skip(1);
        assert forall|i: int| 0 <= i < n - 1 implies class.has(#[trigger] t[i]) by {
            assert(t[i] == s[i + 1]);
        }
        lemma_prefix_len_is(t, class, n - 1);
    }
}

/// A run of `n` characters of `class` at the back of `s`, preceded by the start
/// of `s` or by a character outside `class`, is the longest such suffix.
pub proof fn lemma_suffix_len_is(s: Seq<char>, class: CharClass, n: int)
    requires
        0 <= n <= s.len(),
        forall|i: int| s.len() - n <= i < s.len() ==> class.has(#[trigger] s[i]),
        n < s.len() ==> !class.has(s[s.len() - n - 1]),
    ensures
        suffix_len(s, class) == n,
    decreases s.len(),
{
    if s.len() > 0 && class.has(s.last()) {
        let t = s.drop_last();
        assert forall|i: int| t.len() - (n - 1) <= i < t.len() implies class.has(
            #[trigger] t[i],
        ) by {
            assert(t[i] == s[i]);
        }
        lemma_suffix_len_is(t, class, n - 1);
    }
}

/// Computes `prefix_len` of the part of `s` that starts at `from`.
pub fn scan_prefix(s: &[char], from: usize, class: CharClass) -> (n: usize)
    requires
        from <= s.len(),
    ensures
        n == prefix_len(s@.skip(from as int), class),
        from + n <= s.len(),
{
    let mut end: usize = from;
    while end < s.len() && class.contains(s[end])
        invariant
            from <= end <= s.len(),
            forall|i: int| from <= i < end ==> class.has(#[trigger] s@[i]),
        decreases s.len() - end,
    {
        end += 1;
    }
    proof {
        let t = s@.skip(from as int);
        assert forall|i: int| 0 <= i < end - from implies class.has(#[trigger] t[i]) by {
            assert(t[i] == s@[i + from]);
        }
        lemma_prefix_len_is(t, class, end - from);
    }
    end - from
}

/// Computes `suffix_len` of the part of `s` that ends before `to`.
pub fn scan_suffix(s: &[char], to: usize, class: CharClass) -> (n: usize)
    requires
        to <= s.len(),
    ensures
        n == suffix_len(s@.take(to as int), class),
        n <= to,
{
    let mut start: usize = to;
    while start > 0 && class.contains(s[start - 1])
        invariant
            start <= to <= s.len(),
            forall|i: int| start <= i < to ==> class.has(#[trigger] s@[i]),
        decreases start,
    {
        start -= 1;
    }
    proof {
        let t = s@.take(to as int);
        assert forall|i: int| t.len() - (to - start) <= i < t.len() implies class.has(
            #[trigger] t[i],
        ) by {
            assert(t[i] == s@[i]);
        }
        lemma_suffix_len_is(t, class, to - start);
    }
    to - start
}

/// `s` without its longest prefix in `class`.
pub open spec fn strip_prefix_of(s: Seq<char>, class: CharClass) -> Seq<char> {
    s.skip(prefix_len(s, class) as int)
}

/// `s` without its longest suffix in `class`.
pub open spec fn strip_suffix_of(s: Seq<char>, class: CharClass) -> Seq<char> {
    s.take(s.len() - suffix_len(s, class))
}

/// `s` without its longest prefix and its longest suffix in `class`.
pub open spec fn strip_both(s: Seq<char>, class: CharClass) -> Seq<char> {
    strip_suffix_of(strip_prefix_of(s, class), class)
}

/// `s` without its leading whitespace.
pub open spec fn trim_start(s: Seq<char>) -> Seq<char> {
    strip_prefix_of(s, CharClass::Whitespace)
}

/// `s` without leading and trailing whitespace.
pub open spec fn trim(s: Seq<char>) -> Seq<char> {
    strip_both(s, CharClass::Whitespace)
}

/// `s` without the characters `c` at its front and at its back.
pub open spec fn trim_matches(s: Seq<char>, c: char) -> Seq<char> {
    strip_both(s, CharClass::Exactly(c))
}

/// Whether `s` is empty or made of whitespace only.
pub open spec fn is_blank(s: Seq<char>) -> bool {
    trim(s).len() == 0
}

/// A blank text holds whitespace only.
pub proof fn lemma_blank_holds_only_whitespace(s: Seq<char>)
    ensures
        is_blank(s) <==> forall|i: int| 0 <= i < s.len() ==> is_whitespace(#[trigger] s[i]),
{
    let white = CharClass::Whitespace;
    let t = strip_prefix_of(s, white);
    lemma_prefix_len(s, white);
    lemma_suffix_len(t, white);
    if is_blank(s) {
        assert forall|i: int| 0 <= i < s.len() implies is_whitespace(#[trigger] s[i]) by {
            if i >= prefix_len(s, white) {
                assert(s[i] == t[i - prefix_len(s, white)]);
                assert(white.has(t[i - prefix_len(s, white)]));
            } else {
                assert(white.has(s[i]));
            }
        }
    }
    if forall|i: int| 0 <= i < s.len() ==> is_whitespace(#[trigger] s[i]) {
        if prefix_len(s, white) < s.len() {
            assert(white.has(s[prefix_len(s, white) as int]));
        }
    }
}

/// The slice of `s` without its longest prefix in `class`.
pub fn strip_prefix_slice(s: &[char], class: CharClass) -> (r: &[char])
    ensures
        r@ == strip_prefix_of(s@, class),
{
    let n = scan_prefix(s, 0, class);
    assert(s@.skip(0) =~= s@);
    slice_subrange(s, n, s.len())
}

/// The slice of `s` without its longest suffix in `class`.
pub fn strip_suffix_slice(s: &[char], class: CharClass) -> (r: &[char])
    ensures
        r@ == strip_suffix_of(s@, class),
{
    let n = scan_suffix(s, s.len(), class);
    assert(s@.take(s.len() as int) =~= s@);
    slice_subrange(s, 0, s.len() - n)
}

/// The slice of `s` without its longest prefix and suffix in `class`.
pub fn strip_both_slice(s: &[char], class: CharClass) -> (r: &[char])
    ensures
        r@ == strip_both(s@, class),
{
    strip_suffix_slice(strip_prefix_slice(s, class), class)
}

/// The slice of `s` that is left when leading and trailing whitespace is removed.
pub fn trim_slice(s: &[char]) -> (r: &[char])
    ensures
        r@ == trim(s@),
{
    strip_both_slice(s, CharClass::Whitespace)
}

/// Decides `is_blank`.
pub fn is_blank_slice(s: &[char]) -> (b: bool)
    ensures
        b == is_blank(s@),
{
    trim_slice(s).len() == 0
}

} // verus!
