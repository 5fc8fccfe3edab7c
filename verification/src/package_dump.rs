//! Reading a package-manager dump: the version of an installed package and the
//! permissions that it has been granted.
//!
//! Dumps are often incomplete or altered by vendors, so nothing here fails: a
//! field that is not found reads `N/A`, and a dump without granted permissions
//! gives an empty list.

use crate::search::contains;
use crate::search::contains_slice;
use crate::search::starts_with;
use crate::search::starts_with_slice;
use crate::split::field;
use crate::split::field_slice;
use crate::split::first_where;
use crate::split::lemma_first_where_is;
use crate::split::lemma_first_where_none;
use crate::split::line_views;
use crate::split::lines_of;
use crate::split::split_lines;
use crate::split::token;
use crate::split::token_slice;
use crate::text::from_chars;
use crate::text::string_views;
use crate::text::to_chars;
use crate::text::trim;
use crate::text::trim_slice;
use crate::unique::dedup;
use crate::unique::is_first_occurrence;
use crate::unique::lemma_dedup_elements;
use crate::unique::lemma_dedup_first_seen;
use crate::unique::push_unique_string;
use vstd::prelude::*;
use vstd::slice::slice_subrange;

verus! {

/// The version of an installed package. A field that the dump does not give
/// reads `N/A`.
pub struct AppVersionInfo {
    pub version_code: String,
    pub version_name: String,
}

/// The permissions that a dump reports as granted, each once, in the order in
/// which the dump first mentions them.
pub struct GrantedPermissionSet {
    pub permissions: Vec<String>,
}

impl View for GrantedPermissionSet {
    type V = Seq<Seq<char>>;

    open spec fn view(&self) -> Seq<Seq<char>> {
        string_views(self.permissions@)
    }
}

impl GrantedPermissionSet {
    /// No permission is listed twice.
    pub open spec fn wf(&self) -> bool {
        self@.no_duplicates()
    }
}

/// What a package-manager dump says of a package.
pub struct PackageDump {
    pub version: AppVersionInfo,
    pub granted: GrantedPermissionSet,
}

/// The text that stands for a field that the dump does not give.
pub open spec fn not_available() -> Seq<char> {
    "N/A"@
}

/// Whether a line, once trimmed, starts with `versionCode=`.
pub open spec fn is_version_code_line(raw: Seq<char>) -> bool {
    starts_with(trim(raw), "versionCode="@)
}

/// Whether a line, once trimmed, starts with `versionName=`.
pub open spec fn is_version_name_line(raw: Seq<char>) -> bool {
    starts_with(trim(raw), "versionName="@)
}

/// The version code on a `versionCode=` line: what follows the `=` up to the
/// next whitespace.
pub open spec fn version_code_on(raw: Seq<char>) -> Seq<char> {
    match token(trim(raw).skip("versionCode="@.len() as int), 0) {
        Some(t) => t,
        None => Seq::empty(),
    }
}

/// The version name on a `versionName=` line: all that follows the `=`.
pub open spec fn version_name_on(raw: Seq<char>) -> Seq<char> {
    trim(raw).skip("versionName="@.len() as int)
}

/// The version code that the lines give: that of the first `versionCode=` line.
pub open spec fn version_code_of(lines: Seq<Seq<char>>) -> Seq<char> {
    match first_where(lines, |raw: Seq<char>| is_version_code_line(raw)) {
        Some(i) => version_code_on(lines[i]),
        None => not_available(),
    }
}

/// The version name that the lines give: that of the first `versionName=` line.
pub open spec fn version_name_of(lines: Seq<Seq<char>>) -> Seq<char> {
    match first_where(lines, |raw: Seq<char>| is_version_name_line(raw)) {
        Some(i) => version_name_on(lines[i]),
        None => not_available(),
    }
}

/// Whether a trimmed line names an Android permission.
pub open spec fn names_permission(line: Seq<char>) -> bool {
    contains(line, "android.permission."@) || contains(line, "com.android.permission."@)
}

/// The permission that a line reports as granted, if it reports one: the line
/// names a permission and holds `granted=true`, and the permission is what
/// stands before the first `:`, cut at the first whitespace.
pub open spec fn granted_on(raw: Seq<char>) -> Option<Seq<char>> {
    let line = trim(raw);
    if names_permission(line) && contains(line, "granted=true"@) {
        match field(line, ':', 0) {
            Some(head) => token(head, 0),
            None => None,
        }
    } else {
        None
    }
}

/// Every report of a granted permission in the lines, in order, repetitions
/// included.
pub open spec fn granted_mentions(lines: Seq<Seq<char>>) -> Seq<Seq<char>>
    decreases lines.len(),
{
    if lines.len() == 0 {
        Seq::empty()
    } else {
        let front = granted_mentions(lines.drop_last());
        match granted_on(lines.last()) {
            Some(p) => front.push(p),
            None => front,
        }
    }
}

/// The granted permissions of a dump: each reported permission once, in the
/// order of first report.
pub open spec fn granted_permissions_of(dump: Seq<char>) -> Seq<Seq<char>> {
    dedup(granted_mentions(lines_of(dump)))
}

/// A dump none of whose lines starts with `versionCode=` gives the version code
/// `N/A`, and one none of whose lines starts with `versionName=` gives the
/// version name `N/A`.
pub proof fn lemma_missing_version_reads_not_available(dump: Seq<char>)
    ensures
        (forall|i: int|
            0 <= i < lines_of(dump).len() ==> !is_version_code_line(#[trigger] lines_of(dump)[i]))
            ==> version_code_of(lines_of(dump)) == "N/A"@,
        (forall|i: int|
            0 <= i < lines_of(dump).len() ==> !is_version_name_line(#[trigger] lines_of(dump)[i]))
            ==> version_name_of(lines_of(dump)) == "N/A"@,
{
    let lines = lines_of(dump);
    let code = |raw: Seq<char>| is_version_code_line(raw);
    let name = |raw: Seq<char>| is_version_name_line(raw);
    if forall|i: int| 0 <= i < lines.len() ==> !is_version_code_line(#[trigger] lines[i]) {
        assert forall|j: int| 0 <= j < lines.len() implies !code(#[trigger] lines[j]) by {
            assert(!is_version_code_line(lines[j]));
        }
        lemma_first_where_none(lines, code);
    }
    if forall|i: int| 0 <= i < lines.len() ==> !is_version_name_line(#[trigger] lines[i]) {
        assert forall|j: int| 0 <= j < lines.len() implies !name(#[trigger] lines[j]) by {
            assert(!is_version_name_line(lines[j]));
        }
        lemma_first_where_none(lines, name);
    }
}

/// The granted permissions of any dump hold no permission twice, hold exactly
/// the permissions that the dump reports, and list them in the order of their
/// first report: the returned positions, one for each listed permission, rise
/// strictly, and each is the first report of its permission.
pub proof fn lemma_granted_permissions_first_seen(dump: Seq<char>) -> (at: Seq<int>)
    ensures
        granted_permissions_of(dump).no_duplicates(),
        forall|p: Seq<char>|
            granted_permissions_of(dump).contains(p) <==> granted_mentions(lines_of(dump)).contains(
                p,
            ),
        at.len() == granted_permissions_of(dump).len(),
        forall|i: int|
            0 <= i < at.len() ==> is_first_occurrence(
                granted_mentions(lines_of(dump)),
                #[trigger] at[i],
            ) && granted_mentions(lines_of(dump))[at[i]] == granted_permissions_of(dump)[i],
        forall|i: int, j: int| 0 <= i < j < at.len() ==> at[i] < at[j],
{
    lemma_dedup_elements(granted_mentions(lines_of(dump)));
    lemma_dedup_first_seen(granted_mentions(lines_of(dump)))
}

/// The markers that the extractor looks for, as characters.
struct Markers {
    version_code: Vec<char>,
    version_name: Vec<char>,
    permission: Vec<char>,
    system_permission: Vec<char>,
    granted: Vec<char>,
}

impl Markers {
    spec fn wf(&self) -> bool {
        &&& self.version_code@ == "versionCode="@
        &&& self.version_name@ == "versionName="@
        &&& self.permission@ == "android.permission."@
        &&& self.system_permission@ == "com.android.permission."@
        &&& self.granted@ == "granted=true"@
    }

    fn new() -> (m: Markers)
        ensures
            m.wf(),
    {
        Markers {
            version_code: to_chars("versionCode="),
            version_name: to_chars("versionName="),
            permission: to_chars("android.permission."),
            system_permission: to_chars("com.android.permission."),
            granted: to_chars("granted=true"),
        }
    }
}

/// The version code of the first `versionCode=` line, or `N/A`.
fn find_version_code(lines: &Vec<Vec<char>>, m: &Markers) -> (code: String)
    requires
        m.wf(),
    ensures
        code@ == version_code_of(line_views(lines@)),
{
    let ghost all = line_views(lines@);
    let ghost p = |raw: Seq<char>| is_version_code_line(raw);
    let mut k: usize = 0;
    while k < lines.len()
        invariant
            k <= lines.len(),
            m.wf(),
            all == line_views(lines@),
            p == (|raw: Seq<char>| is_version_code_line(raw)),
            forall|j: int| 0 <= j < k ==> !p(#[trigger] all[j]),
        decreases lines.len() - k,
    {
        let line = trim_slice(lines[k].as_slice());
        if starts_with_slice(line, m.version_code.as_slice()) {
            let rest = slice_subrange(line, m.version_code.len(), line.len());
            proof {
                assert(p(all[k as int]));
                lemma_first_where_is(all, p, k as int);
            }
            return match token_slice(rest, 0) {
                Some(t) => from_chars(t),
                None => String::new(),
            };
        }
        assert(!p(all[k as int]));
        k += 1;
    }
    proof {
        lemma_first_where_none(all, p);
    }
    "N/A".to_owned()
}

/// The version name of the first `versionName=` line, or `N/A`.
fn find_version_name(lines: &Vec<Vec<char>>, m: &Markers) -> (name: String)
    requires
        m.wf(),
    ensures
        name@ == version_name_of(line_views(lines@)),
{
    let ghost all = line_views(lines@);
    let ghost p = |raw: Seq<char>| is_version_name_line(raw);
    let mut k: usize = 0;
    while k < lines.len()
        invariant
            k <= lines.len(),
            m.wf(),
            all == line_views(lines@),
            p == (|raw: Seq<char>| is_version_name_line(raw)),
            forall|j: int| 0 <= j < k ==> !p(#[trigger] all[j]),
        decreases lines.len() - k,
    {
        let line = trim_slice(lines[k].as_slice());
        if starts_with_slice(line, m.version_name.as_slice()) {
            proof {
                assert(p(all[k as int]));
                lemma_first_where_is(all, p, k as int);
            }
            return from_chars(slice_subrange(line, m.version_name.len(), line.len()));
        }
        assert(!p(all[k as int]));
        k += 1;
    }
    proof {
        lemma_first_where_none(all, p);
    }
    "N/A".to_owned()
}

/// Computes `granted_on`.
fn granted_on_line<'a>(raw: &'a [char], m: &Markers) -> (r: Option<&'a [char]>)
    requires
        m.wf(),
    ensures
        crate::split::slice_view(r) == granted_on(raw@),
{
    let line = trim_slice(raw);
    let named = contains_slice(line, m.permission.as_slice()) || contains_slice(
        line,
        m.system_permission.as_slice(),
    );
    if named && contains_slice(line, m.granted.as_slice()) {
        match field_slice(line, ':', 0) {
            Some(head) => token_slice(head, 0),
            None => None,
        }
    } else {
        None
    }
}

/// The granted permissions that the lines report.
fn collect_granted(lines: &Vec<Vec<char>>, m: &Markers) -> (granted: GrantedPermissionSet)
    requires
        m.wf(),
    ensures
        granted@ == dedup(granted_mentions(line_views(lines@))),
{
    let ghost all = line_views(lines@);
    let mut permissions: Vec<String> = Vec::new();
    let mut k: usize = 0;
    assert(all.take(0) =~= Seq::empty());
    assert(string_views(permissions@) =~= Seq::empty());
    while k < lines.len()
        invariant
            k <= lines.len(),
            m.wf(),
            all == line_views(lines@),
            string_views(permissions@) == dedup(granted_mentions(all.take(k as int))),
        decreases lines.len() - k,
    {
        proof {
            assert(all.take(k + 1).drop_last() =~= all.take(k as int));
            assert(all.take(k + 1).last() == lines[k as int]@);
        }
        match granted_on_line(lines[k].as_slice(), m) {
            Some(p) => {
                proof {
                    let before = granted_mentions(all.take(k as int));
                    assert(before.push(p@).drop_last() =~= before);
                }
                push_unique_string(&mut permissions, from_chars(p));
            },
            None => {},
        }
        k += 1;
    }
    assert(all.take(k as int) =~= all);
    GrantedPermissionSet { permissions }
}

/// The version of the package that a dump describes: the code and the name of
/// the first line that gives each, and `N/A` for one that no line gives.
pub fn extract_version_info(dump: &str) -> (info: AppVersionInfo)
    ensures
        info.version_code@ == version_code_of(lines_of(dump@)),
        info.version_name@ == version_name_of(lines_of(dump@)),
        (forall|i: int|
            0 <= i < lines_of(dump@).len() ==> !is_version_code_line(#[trigger] lines_of(dump@)[i]))
            ==> info.version_code@ == "N/A"@,
        (forall|i: int|
            0 <= i < lines_of(dump@).len() ==> !is_version_name_line(#[trigger] lines_of(dump@)[i]))
            ==> info.version_name@ == "N/A"@,
{
    proof {
        lemma_missing_version_reads_not_available(dump@);
    }
    let chars = to_chars(dump);
    let lines = split_lines(chars.as_slice());
    let markers = Markers::new();
    AppVersionInfo {
        version_code: find_version_code(&lines, &markers),
        version_name: find_version_name(&lines, &markers),
    }
}

/// The permissions that a dump reports as granted, each once, in the order of
/// first report.
pub fn extract_granted_permissions(dump: &str) -> (granted: GrantedPermissionSet)
    ensures
        granted@ == granted_permissions_of(dump@),
        granted.wf(),
{
    let chars = to_chars(dump);
    let lines = split_lines(chars.as_slice());
    let markers = Markers::new();
    proof {
        lemma_dedup_elements(granted_mentions(lines_of(dump@)));
    }
    collect_granted(&lines, &markers)
}

/// Reads a package-manager dump: the version and the granted permissions.
pub fn parse_package_dump(dump: &str) -> (r: PackageDump)
    ensures
        r.version.version_code@ == version_code_of(lines_of(dump@)),
        r.version.version_name@ == version_name_of(lines_of(dump@)),
        r.granted@ == granted_permissions_of(dump@),
        r.granted.wf(),
{
    let chars = to_chars(dump);
    let lines = split_lines(chars.as_slice());
    let markers = Markers::new();
    proof {
        lemma_dedup_elements(granted_mentions(lines_of(dump@)));
    }
    PackageDump {
        version: AppVersionInfo {
            version_code: find_version_code(&lines, &markers),
            version_name: find_version_name(&lines, &markers),
        },
        granted: collect_granted(&lines, &markers),
    }
}

} // verus!
