//! Files of applications on local disk: what kind of file a name stands for,
//! and which of the APK files of a bundle is the base one.
//!
//! A bundle is one container that holds several APK files. Its base file is
//! picked by three rules, the first that applies deciding: a file named
//! `base.apk`; failing that, a file with `base` in its name; failing that, the
//! largest file. Names are compared in lowercase, and among equals the file
//! that comes first wins.

use crate::search::contains;
use crate::search::contains_slice;
use crate::split::first_where;
use crate::split::lemma_first_where;
use crate::split::lemma_first_where_is;
use crate::split::lemma_first_where_none;
use crate::text::from_chars;
use crate::text::lowercase_of;
use crate::text::scan_suffix;
use crate::text::str_text;
use crate::text::string_text;
use crate::text::suffix_len;
use crate::text::to_chars;
use crate::text::CharClass;
use vstd::prelude::*;
use vstd::slice::slice_subrange;

verus! {

/// What a file is taken for by its name.
#[derive(Clone, Copy, PartialEq, Eq, Structural, Debug)]
pub enum FileKind {
    /// A single application package.
    Apk,
    /// A bundle of application packages.
    Xapk,
    /// Anything else.
    Unsupported,
}

/// The extension of a file name: what follows its last `.`, unless the name has
/// no `.` or its only `.` is its first character.
pub open spec fn extension_of(file_name: Seq<char>) -> Option<Seq<char>> {
    let after = suffix_len(file_name, CharClass::Except('.'));
    if after + 1 < file_name.len() {
        Some(file_name.skip(file_name.len() - after))
    } else {
        None
    }
}

/// The kind that an extension in lowercase stands for.
pub open spec fn kind_of(lowered_extension: Option<Seq<char>>) -> FileKind {
    if lowered_extension == Some("apk"@) {
        FileKind::Apk
    } else if lowered_extension == Some("xapk"@) {
        FileKind::Xapk
    } else {
        FileKind::Unsupported
    }
}

/// The extension of a file name in lowercase.
pub open spec fn lowered_extension_of(file_name: Seq<char>) -> Option<Seq<char>> {
    match extension_of(file_name) {
        Some(ext) => Some(lowercase_of(ext)),
        None => None,
    }
}

/// The extension of a file name.
pub fn extension(file_name: &str) -> (ext: Option<String>)
    ensures
        string_text(ext) == extension_of(file_name@),
{
    let chars = to_chars(file_name);
    let after = scan_suffix(chars.as_slice(), chars.len(), CharClass::Except('.'));
    assert(chars@.take(chars.len() as int) =~= chars@);
    if after < chars.len() && after + 1 < chars.len() {
        Some(from_chars(slice_subrange(chars.as_slice(), chars.len() - after, chars.len())))
    } else {
        None
    }
}

/// The kind that an extension stands for, the extension given in lowercase.
pub fn classify_extension(lowered_extension: Option<&str>) -> (kind: FileKind)
    ensures
        kind == kind_of(str_text(lowered_extension)),
{
    match lowered_extension {
        Some(ext) => {
            let chars = to_chars(ext);
            let apk = to_chars("apk");
            let xapk = to_chars("xapk");
            if crate::text::slices_equal(chars.as_slice(), apk.as_slice()) {
                FileKind::Apk
            } else if crate::text::slices_equal(chars.as_slice(), xapk.as_slice()) {
                FileKind::Xapk
            } else {
                FileKind::Unsupported
            }
        },
        None => FileKind::Unsupported,
    }
}

/// The kind of a file, by the extension of its name: `apk` and `xapk` in any
/// mix of upper and lower case are the two kinds that are supported.
pub fn file_kind(file_name: &str) -> (kind: FileKind)
    ensures
        kind == kind_of(lowered_extension_of(file_name@)),
{
    match extension(file_name) {
        Some(ext) => {
            let lowered = ext.as_str().to_lowercase();
            classify_extension(Some(lowered.as_str()))
        },
        None => classify_extension(None),
    }
}

/// Whether a file name has the extension of an application package.
pub fn is_apk_file_name(file_name: &str) -> (b: bool)
    ensures
        b == (kind_of(lowered_extension_of(file_name@)) == FileKind::Apk),
{
    file_kind(file_name) == FileKind::Apk
}

/// One APK file of a bundle, as found on disk.
pub struct ApkFile {
    /// Where the file is.
    pub path: String,
    /// The last component of the path, where it has one.
    pub file_name: Option<String>,
    /// The size of the file, where it could be had.
    pub size_bytes: Option<u64>,
}

/// What the choice of the base file looks at: the file's name in lowercase and
/// its size.
pub struct BaseCandidate {
    pub lowered_name: Option<String>,
    pub size_bytes: Option<u64>,
}

/// The mathematical content of a `BaseCandidate`. A size that could not be had
/// counts as 0.
pub struct Candidate {
    pub lowered_name: Option<Seq<char>>,
    pub size: nat,
}

/// The size that counts for the choice.
pub open spec fn size_of(size_bytes: Option<u64>) -> nat {
    match size_bytes {
        Some(n) => n as nat,
        None => 0,
    }
}

impl View for BaseCandidate {
    type V = Candidate;

    open spec fn view(&self) -> Candidate {
        Candidate { lowered_name: string_text(self.lowered_name), size: size_of(self.size_bytes) }
    }
}

/// The candidates that a vector holds.
pub open spec fn candidate_views(candidates: Seq<BaseCandidate>) -> Seq<Candidate> {
    candidates.map_values(|c: BaseCandidate| c@)
}

/// The candidate that a file on disk gives.
pub open spec fn candidate_of(file: ApkFile) -> Candidate {
    Candidate {
        lowered_name: match file.file_name {
            Some(name) => Some(lowercase_of(name@)),
            None => None,
        },
        size: size_of(file.size_bytes),
    }
}

/// The candidates that the files of a bundle give.
pub open spec fn candidates_of(files: Seq<ApkFile>) -> Seq<Candidate> {
    files.map_values(|f: ApkFile| candidate_of(f))
}

/// Whether a candidate is named `base.apk`.
pub open spec fn is_exact_base(c: Candidate) -> bool {
    c.lowered_name == Some("base.apk"@)
}

/// Whether a candidate has `base` in its name.
pub open spec fn is_named_base(c: Candidate) -> bool {
    c.lowered_name matches Some(name) && contains(name, "base"@)
}

/// The position of the largest candidate, the first of them where several are
/// equally large; 0 for no candidates.
pub open spec fn first_largest(candidates: Seq<Candidate>) -> int
    decreases candidates.len(),
{
    if candidates.len() <= 1 {
        0
    } else {
        let best = first_largest(candidates.drop_last());
        if candidates.last().size > candidates[best].size {
            candidates.len() - 1
        } else {
            best
        }
    }
}

/// The position of the base file among the candidates.
pub open spec fn base_index(candidates: Seq<Candidate>) -> int {
    match first_where(candidates, |c: Candidate| is_exact_base(c)) {
        Some(i) => i,
        None => match first_where(candidates, |c: Candidate| is_named_base(c)) {
            Some(i) => i,
            None => first_largest(candidates),
        },
    }
}

/// `first_largest` is a position of the list, no candidate is larger than the
/// one there, and every candidate before it is smaller.
pub proof fn lemma_first_largest(candidates: Seq<Candidate>)
    requires
        candidates.len() > 0,
    ensures
        0 <= first_largest(candidates) < candidates.len(),
        forall|j: int|
            0 <= j < candidates.len() ==> (#[trigger] candidates[j]).size
                <= candidates[first_largest(candidates)].size,
        forall|j: int|
            0 <= j < first_largest(candidates) ==> (#[trigger] candidates[j]).size
                < candidates[first_largest(candidates)].size,
    decreases candidates.len(),
{
    if candidates.len() > 1 {
        let front = candidates.drop_last();
        lemma_first_largest(front);
        let best = first_largest(front);
        assert(front[best] == candidates[best]);
        assert forall|j: int| 0 <= j < candidates.len() implies (#[trigger] candidates[j]).size
            <= candidates[first_largest(candidates)].size by {
            if j < front.len() {
                assert(front[j] == candidates[j]);
            }
        }
        assert forall|j: int| 0 <= j < first_largest(candidates) implies (
        #[trigger] candidates[j]).size < candidates[first_largest(candidates)].size by {
            assert(front[j] == candidates[j]);
        }
    }
}

/// A name beats a size. Where a candidate is named `base.apk`, the base file is
/// the first candidate so named; where none is, and a candidate has `base` in
/// its name, the base file is the first such candidate. In both cases the sizes
/// play no part: other sizes for the same names give the same choice.
pub proof fn lemma_name_beats_size(candidates: Seq<Candidate>, others: Seq<Candidate>, at: int)
    requires
        0 <= at < candidates.len(),
        is_named_base(candidates[at]) || is_exact_base(candidates[at]),
        others.len() == candidates.len(),
        forall|i: int|
            0 <= i < candidates.len() ==> (#[trigger] others[i]).lowered_name
                == candidates[i].lowered_name,
    ensures
        0 <= base_index(candidates) < candidates.len(),
        is_exact_base(candidates[at]) ==> is_exact_base(candidates[base_index(candidates)]),
        is_exact_base(candidates[base_index(candidates)]) || is_named_base(
            candidates[base_index(candidates)],
        ),
        forall|j: int|
            0 <= j < base_index(candidates) ==> !is_exact_base(#[trigger] candidates[j]),
        !is_exact_base(candidates[base_index(candidates)]) ==> forall|j: int|
            0 <= j < candidates.len() ==> !is_exact_base(#[trigger] candidates[j]) && (j
                < base_index(candidates) ==> !is_named_base(candidates[j])),
        base_index(others) == base_index(candidates),
{
    let exact = |c: Candidate| is_exact_base(c);
    let named = |c: Candidate| is_named_base(c);
    lemma_first_where(candidates, exact);
    lemma_first_where(candidates, named);
    lemma_first_where(others, exact);
    lemma_first_where(others, named);
    match first_where(candidates, exact) {
        Some(i) => {
            assert(exact(others[i]));
            assert forall|j: int| 0 <= j < i implies !exact(#[trigger] others[j]) by {
                assert(!exact(candidates[j]));
            }
            lemma_first_where_is(others, exact, i);
        },
        None => {
            assert(!exact(candidates[at]));
            assert forall|j: int| 0 <= j < others.len() implies !exact(#[trigger] others[j]) by {
                assert(!exact(candidates[j]));
            }
            lemma_first_where_none(others, exact);
            assert(named(candidates[at]));
            let i = first_where(candidates, named)->0;
            assert(named(others[i]));
            assert forall|j: int| 0 <= j < i implies !named(#[trigger] others[j]) by {
                assert(!named(candidates[j]));
            }
            lemma_first_where_is(others, named, i);
        },
    }
}

/// Where no candidate has `base` in its name, the base file is the largest
/// candidate, and the first of the largest where several are equally large.
pub proof fn lemma_largest_without_a_name(candidates: Seq<Candidate>)
    requires
        candidates.len() > 0,
        forall|i: int|
            0 <= i < candidates.len() ==> !is_exact_base(#[trigger] candidates[i])
                && !is_named_base(candidates[i]),
    ensures
        0 <= base_index(candidates) < candidates.len(),
        forall|j: int|
            0 <= j < candidates.len() ==> (#[trigger] candidates[j]).size
                <= candidates[base_index(candidates)].size,
        forall|j: int|
            0 <= j < base_index(candidates) ==> (#[trigger] candidates[j]).size
                < candidates[base_index(candidates)].size,
{
    let exact = |c: Candidate| is_exact_base(c);
    let named = |c: Candidate| is_named_base(c);
    assert forall|j: int| 0 <= j < candidates.len() implies !exact(#[trigger] candidates[j]) by {
        assert(!is_exact_base(candidates[j]));
    }
    assert forall|j: int| 0 <= j < candidates.len() implies !named(#[trigger] candidates[j]) by {
        assert(!is_named_base(candidates[j]));
    }
    lemma_first_where_none(candidates, exact);
    lemma_first_where_none(candidates, named);
    lemma_first_largest(candidates);
}

/// Why no base file can be named.
#[derive(Clone, Copy, PartialEq, Eq, Structural, Debug)]
pub enum BundleError {
    /// The container holds no APK file.
    NoInnerApk,
}

/// Picks the base file among candidates whose names are given in lowercase.
/// Without a candidate there is no base file, and that is the one error.
pub fn choose_base(candidates: &Vec<BaseCandidate>) -> (r: Result<usize, BundleError>)
    ensures
        candidates@.len() == 0 <==> r == Err::<usize, BundleError>(BundleError::NoInnerApk),
        r matches Ok(base) ==> base == base_index(candidate_views(candidates@)) && base
            < candidates.len(),
{
    if candidates.len() == 0 {
        return Err(BundleError::NoInnerApk);
    }
    let ghost all = candidate_views(candidates@);
    let ghost exact = |c: Candidate| is_exact_base(c);
    let ghost named = |c: Candidate| is_named_base(c);
    let base_apk = "base.apk".to_owned();
    let base = to_chars("base");
    let mut i: usize = 0;
    while i < candidates.len()
        invariant
            i <= candidates.len(),
            all == candidate_views(candidates@),
            exact == (|c: Candidate| is_exact_base(c)),
            base_apk@ == "base.apk"@,
            forall|j: int| 0 <= j < i ==> !exact(#[trigger] all[j]),
        decreases candidates.len() - i,
    {
        assert(all[i as int] == candidates[i as int]@);
        match &candidates[i].lowered_name {
            Some(name) => {
                if *name == base_apk {
                    proof {
                        assert(exact(all[i as int]));
                        lemma_first_where_is(all, exact, i as int);
                    }
                    return Ok(i);
                }
            },
            None => {},
        }
        assert(!exact(all[i as int]));
        i += 1;
    }
    proof {
        lemma_first_where_none(all, exact);
    }
    let mut i: usize = 0;
    while i < candidates.len()
        invariant
            i <= candidates.len(),
            all == candidate_views(candidates@),
            named == (|c: Candidate| is_named_base(c)),
            base@ == "base"@,
            first_where(all, |c: Candidate| is_exact_base(c)) is None,
            forall|j: int| 0 <= j < i ==> !named(#[trigger] all[j]),
        decreases candidates.len() - i,
    {
        assert(all[i as int] == candidates[i as int]@);
        match &candidates[i].lowered_name {
            Some(name) => {
                let chars = to_chars(name.as_str());
                if contains_slice(chars.as_slice(), base.as_slice()) {
                    proof {
                        assert(named(all[i as int]));
                        lemma_first_where_is(all, named, i as int);
                    }
                    return Ok(i);
                }
            },
            None => {},
        }
        assert(!named(all[i as int]));
        i += 1;
    }
    proof {
        lemma_first_where_none(all, named);
    }
    let mut largest: usize = 0;
    let mut largest_size: u64 = 0;
    let mut i: usize = 0;
    assert(all.take(0).len() == 0);
    while i < candidates.len()
        invariant
            i <= candidates.len(),
            candidates.len() > 0,
            all == candidate_views(candidates@),
            largest < candidates.len(),
            first_where(all, |c: Candidate| is_exact_base(c)) is None,
            first_where(all, |c: Candidate| is_named_base(c)) is None,
            largest == first_largest(all.take(i as int)),
            i > 0 ==> largest_size == all[largest as int].size,
            i == 0 ==> largest_size == 0 && largest == 0,
        decreases candidates.len() - i,
    {
        assert(all[i as int] == candidates[i as int]@);
        proof {
            assert(all.take(i + 1).drop_last() =~= all.take(i as int));
            assert(all.take(i + 1).last() == all[i as int]);
            if i > 0 {
                lemma_first_largest(all.take(i as int));
                assert(all.take(i + 1)[largest as int] == all[largest as int]);
            }
        }
        let size = match candidates[i].size_bytes {
            Some(n) => n,
            None => 0,
        };
        if size > largest_size {
            largest_size = size;
            largest = i;
        } else if i == 0 {
            largest_size = size;
        }
        i += 1;
    }
    assert(all.take(i as int) =~= all);
    Ok(largest)
}

/// Picks the base file among the APK files of a bundle, comparing their names
/// in lowercase. A bundle without an APK file has no base file, and that is the
/// one error.
pub fn find_base_apk(files: &Vec<ApkFile>) -> (r: Result<usize, BundleError>)
    ensures
        files@.len() == 0 <==> r == Err::<usize, BundleError>(BundleError::NoInnerApk),
        r matches Ok(base) ==> base == base_index(candidates_of(files@)) && base < files.len(),
{
    let mut candidates: Vec<BaseCandidate> = Vec::new();
    let mut i: usize = 0;
    while i < files.len()
        invariant
            i <= files.len(),
            candidate_views(candidates@) == candidates_of(files@).take(i as int),
        decreases files.len() - i,
    {
        let lowered_name = match &files[i].file_name {
            Some(name) => Some(name.as_str().to_lowercase()),
            None => None,
        };
        let candidate = BaseCandidate { lowered_name, size_bytes: files[i].size_bytes };
        let ghost before = candidate_views(candidates@);
        candidates.push(candidate);
        assert(candidate_views(candidates@) =~= before.push(candidate@));
        assert(candidates_of(files@).take(i + 1) =~= before.push(candidate@));
        i += 1;
    }
    assert(candidates_of(files@).take(i as int) =~= candidates_of(files@));
    choose_base(&candidates)
}

/// The APK files taken out of one bundle, and which of them is the base file.
pub struct ApkBundle {
    pub files: Vec<ApkFile>,
    /// The position of the base file in `files`.
    pub base_apk: usize,
}

impl ApkBundle {
    /// The bundle has a file, and the base file is the one that the three rules
    /// pick.
    pub open spec fn wf(&self) -> bool {
        &&& self.files@.len() > 0
        &&& self.base_apk == base_index(candidates_of(self.files@))
        &&& self.base_apk < self.files@.len()
    }

    /// The bundle of the given files, in their order. A bundle without a file
    /// is refused, and only that one.
    pub fn new(files: Vec<ApkFile>) -> (r: Result<ApkBundle, BundleError>)
        ensures
            files@.len() == 0 <==> r == Err::<ApkBundle, BundleError>(BundleError::NoInnerApk),
            r matches Ok(bundle) ==> bundle.wf() && bundle.files@ == files@,
    {
        match find_base_apk(&files) {
            Ok(base_apk) => Ok(ApkBundle { files, base_apk }),
            Err(e) => Err(e),
        }
    }

    /// The base file.
    pub fn base(&self) -> (file: &ApkFile)
        requires
            self.wf(),
        ensures
            *file == self.files@[self.base_apk as int],
    {
        &self.files[self.base_apk]
    }
}

} // verus!
