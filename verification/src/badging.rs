//! Reading the output of a badging dump: the identity, version, label and
//! permissions of a packaged application.
//!
//! The dump is read line by line. After trimming, a line that starts with
//! `package:` gives the package name and the two version fields, one that
//! starts with `application-label:` or `application-label-` gives the label,
//! and one that starts with `uses-permission:` gives a permission. A value is
//! looked for in single quotes first, then in double quotes.

use crate::search::between;
use crate::search::between_slice;
use crate::search::starts_with;
use crate::search::starts_with_slice;
use crate::search::Delimited;
use crate::search::DelimitedSlice;
use crate::split::field;
use crate::split::field_slice;
use crate::split::line_views;
use crate::split::lines_of;
use crate::split::remove_all;
use crate::split::remove_all_slice;
use crate::split::split_lines;
use crate::text::from_chars;
use crate::text::string_views;
use crate::text::strip_both_slice;
use crate::text::to_chars;
use crate::text::trim;
use crate::text::trim_matches;
use crate::text::trim_slice;
use crate::text::CharClass;
use crate::unique::lemma_push_unique_no_duplicates;
use crate::unique::push_unique;
use crate::unique::push_unique_string;
use vstd::prelude::*;

verus! {

/// What a badging dump says of an application.
pub struct BadgingInfo {
    pub package_name: String,
    pub app_label: String,
    pub version_code: String,
    pub version_name: String,
    /// The permissions asked for, each once, in the order of their first mention.
    pub permissions: Vec<String>,
}

/// The mathematical content of a `BadgingInfo`.
pub struct BadgingFields {
    pub package_name: Seq<char>,
    pub app_label: Seq<char>,
    pub version_code: Seq<char>,
    pub version_name: Seq<char>,
    pub permissions: Seq<Seq<char>>,
}

impl View for BadgingInfo {
    type V = BadgingFields;

    open spec fn view(&self) -> BadgingFields {
        BadgingFields {
            package_name: self.package_name@,
            app_label: self.app_label@,
            version_code: self.version_code@,
            version_name: self.version_name@,
            permissions: string_views(self.permissions@),
        }
    }
}

impl BadgingInfo {
    /// No permission is listed twice.
    pub open spec fn wf(&self) -> bool {
        self@.permissions.no_duplicates()
    }
}

/// The text that stands for a field that the dump does not give.
pub open spec fn not_available() -> Seq<char> {
    "N/A"@
}

/// The text that stands for a version name that the dump gives as empty.
pub open spec fn not_set() -> Seq<char> {
    "Not set"@
}

/// The fields before any line is read.
pub open spec fn unknown() -> BadgingFields {
    BadgingFields {
        package_name: not_available(),
        app_label: not_available(),
        version_code: not_available(),
        version_name: not_available(),
        permissions: Seq::empty(),
    }
}

/// The value of an attribute on a line: the text in single quotes after
/// `single`, or, where `single` does not occur, the text in double quotes after
/// `double`.
pub open spec fn quoted(line: Seq<char>, single: Seq<char>, double: Seq<char>) -> Delimited {
    match between(line, single, "'"@) {
        Delimited::Absent => between(line, double, "\""@),
        found => found,
    }
}

/// `current` replaced by the value found, if one was found.
pub open spec fn or_keep(found: Delimited, current: Seq<char>) -> Seq<char> {
    match found {
        Delimited::Value(v) => v,
        _ => current,
    }
}

/// The version name that a found value stands for: an empty one reads `Not set`.
pub open spec fn version_name_or_keep(found: Delimited, current: Seq<char>) -> Seq<char> {
    match found {
        Delimited::Value(v) => if v.len() == 0 {
            not_set()
        } else {
            v
        },
        _ => current,
    }
}

/// A label as written in the dump, without the whitespace and the quotes
/// around it.
pub open spec fn unquoted_label(s: Seq<char>) -> Seq<char> {
    trim_matches(trim_matches(trim(s), '\''), '"')
}

/// The fields after one more line of the dump.
pub open spec fn after_line(info: BadgingFields, raw: Seq<char>) -> BadgingFields {
    let line = trim(raw);
    if starts_with(line, "package:"@) {
        BadgingFields {
            package_name: or_keep(quoted(line, "name='"@, "name=\""@), info.package_name),
            version_code: or_keep(
                quoted(line, "versionCode='"@, "versionCode=\""@),
                info.version_code,
            ),
            version_name: version_name_or_keep(
                quoted(line, "versionName='"@, "versionName=\""@),
                info.version_name,
            ),
            app_label: info.app_label,
            permissions: info.permissions,
        }
    } else if starts_with(line, "application-label:"@) {
        let label = unquoted_label(remove_all(line, "application-label:"@));
        BadgingFields {
            app_label: if label.len() == 0 {
                not_available()
            } else {
                label
            },
            package_name: info.package_name,
            version_code: info.version_code,
            version_name: info.version_name,
            permissions: info.permissions,
        }
    } else if starts_with(line, "application-label-"@) {
        let label = match field(line, ':', 1) {
            Some(text) => unquoted_label(text),
            None => Seq::empty(),
        };
        BadgingFields {
            app_label: if info.app_label == not_available() && label.len() > 0 {
                label
            } else {
                info.app_label
            },
            package_name: info.package_name,
            version_code: info.version_code,
            version_name: info.version_name,
            permissions: info.permissions,
        }
    } else if starts_with(line, "uses-permission:"@) {
        BadgingFields {
            permissions: match quoted(line, "name='"@, "name=\""@) {
                Delimited::Value(v) => push_unique(info.permissions, v),
                _ => info.permissions,
            },
            package_name: info.package_name,
            app_label: info.app_label,
            version_code: info.version_code,
            version_name: info.version_name,
        }
    } else {
        info
    }
}

/// The fields after the given lines, read in order.
pub open spec fn after_lines(lines: Seq<Seq<char>>) -> BadgingFields
    decreases lines.len(),
{
    if lines.len() == 0 {
        unknown()
    } else {
        after_line(after_lines(lines.drop_last()), lines.last())
    }
}

/// What a badging dump says.
pub open spec fn badging_of(output: Seq<char>) -> BadgingFields {
    after_lines(lines_of(output))
}

/// Reading one more line keeps the permissions free of repetition.
pub proof fn lemma_after_line_no_duplicates(info: BadgingFields, raw: Seq<char>)
    requires
        info.permissions.no_duplicates(),
    ensures
        after_line(info, raw).permissions.no_duplicates(),
{
    let line = trim(raw);
    match quoted(line, "name='"@, "name=\""@) {
        Delimited::Value(v) => {
            lemma_push_unique_no_duplicates(info.permissions, v);
        },
        _ => {},
    }
}

/// Whatever the lines are, no permission is listed twice.
pub proof fn lemma_permissions_no_duplicates(lines: Seq<Seq<char>>)
    ensures
        after_lines(lines).permissions.no_duplicates(),
    decreases lines.len(),
{
    if lines.len() > 0 {
        lemma_permissions_no_duplicates(lines.drop_last());
        lemma_after_line_no_duplicates(after_lines(lines.drop_last()), lines.last());
    }
}

/// A line that, once trimmed, starts with none of the four prefixes changes
/// nothing.
pub proof fn lemma_other_line_changes_nothing(info: BadgingFields, raw: Seq<char>)
    requires
        !starts_with(trim(raw), "package:"@),
        !starts_with(trim(raw), "application-label:"@),
        !starts_with(trim(raw), "application-label-"@),
        !starts_with(trim(raw), "uses-permission:"@),
    ensures
        after_line(info, raw) == info,
{
}

/// A dump without a `package:` line leaves the package name and both version
/// fields at `N/A`.
pub proof fn lemma_no_package_line(lines: Seq<Seq<char>>)
    requires
        forall|i: int| 0 <= i < lines.len() ==> !starts_with(trim(#[trigger] lines[i]), "package:"@),
    ensures
        after_lines(lines).package_name == not_available(),
        after_lines(lines).version_code == not_available(),
        after_lines(lines).version_name == not_available(),
    decreases lines.len(),
{
    if lines.len() > 0 {
        let front = lines.drop_last();
        assert forall|i: int| 0 <= i < front.len() implies !starts_with(
            trim(#[trigger] front[i]),
            "package:"@,
        ) by {
            assert(front[i] == lines[i]);
        }
        lemma_no_package_line(front);
        assert(lines.last() == lines[lines.len() - 1]);
    }
}

/// The markers that the parser looks for, as characters.
struct Markers {
    package: Vec<char>,
    label: Vec<char>,
    localized_label: Vec<char>,
    uses_permission: Vec<char>,
    name_single: Vec<char>,
    name_double: Vec<char>,
    code_single: Vec<char>,
    code_double: Vec<char>,
    version_single: Vec<char>,
    version_double: Vec<char>,
    single_quote: Vec<char>,
    double_quote: Vec<char>,
}

impl Markers {
    spec fn wf(&self) -> bool {
        &&& self.package@ == "package:"@
        &&& self.label@ == "application-label:"@
        &&& self.localized_label@ == "application-label-"@
        &&& self.uses_permission@ == "uses-permission:"@
        &&& self.name_single@ == "name='"@
        &&& self.name_double@ == "name=\""@
        &&& self.code_single@ == "versionCode='"@
        &&& self.code_double@ == "versionCode=\""@
        &&& self.version_single@ == "versionName='"@
        &&& self.version_double@ == "versionName=\""@
        &&& self.single_quote@ == "'"@
        &&& self.double_quote@ == "\""@
    }

    fn new() -> (m: Markers)
        ensures
            m.wf(),
    {
        Markers {
            package: to_chars("package:"),
            label: to_chars("application-label:"),
            localized_label: to_chars("application-label-"),
            uses_permission: to_chars("uses-permission:"),
            name_single: to_chars("name='"),
            name_double: to_chars("name=\""),
            code_single: to_chars("versionCode='"),
            code_double: to_chars("versionCode=\""),
            version_single: to_chars("versionName='"),
            version_double: to_chars("versionName=\""),
            single_quote: to_chars("'"),
            double_quote: to_chars("\""),
        }
    }
}

/// Computes `quoted`.
fn quoted_slice<'a>(line: &'a [char], single: &[char], double: &[char], m: &Markers) -> (r:
    DelimitedSlice<'a>)
    requires
        m.wf(),
    ensures
        r.view() == quoted(line@, single@, double@),
{
    match between_slice(line, single, m.single_quote.as_slice()) {
        DelimitedSlice::Absent => between_slice(line, double, m.double_quote.as_slice()),
        DelimitedSlice::Unclosed => DelimitedSlice::Unclosed,
        DelimitedSlice::Value(v) => DelimitedSlice::Value(v),
    }
}

/// Computes `unquoted_label`.
fn unquoted_label_slice(s: &[char]) -> (r: &[char])
    ensures
        r@ == unquoted_label(s@),
{
    strip_both_slice(
        strip_both_slice(trim_slice(s), CharClass::Exactly('\'')),
        CharClass::Exactly('"'),
    )
}

impl BadgingInfo {
    /// The record in which every field reads `N/A` and no permission is listed.
    pub fn unknown() -> (info: BadgingInfo)
        ensures
            info@ == unknown(),
    {
        let info = BadgingInfo {
            package_name: "N/A".to_owned(),
            app_label: "N/A".to_owned(),
            version_code: "N/A".to_owned(),
            version_name: "N/A".to_owned(),
            permissions: Vec::new(),
        };
        assert(string_views(info.permissions@) =~= Seq::empty());
        info
    }

    /// Takes in one more line of the dump.
    fn read_line(&mut self, raw: &[char], m: &Markers)
        requires
            m.wf(),
        ensures
            final(self)@ == after_line(old(self)@, raw@),
    {
        let line = trim_slice(raw);
        if starts_with_slice(line, m.package.as_slice()) {
            match quoted_slice(line, m.name_single.as_slice(), m.name_double.as_slice(), m) {
                DelimitedSlice::Value(v) => {
                    self.package_name = from_chars(v);
                },
                _ => {},
            }
            match quoted_slice(line, m.code_single.as_slice(), m.code_double.as_slice(), m) {
                DelimitedSlice::Value(v) => {
                    self.version_code = from_chars(v);
                },
                _ => {},
            }
            match quoted_slice(line, m.version_single.as_slice(), m.version_double.as_slice(), m) {
                DelimitedSlice::Value(v) => {
                    if v.len() == 0 {
                        self.version_name = "Not set".to_owned();
                    } else {
                        self.version_name = from_chars(v);
                    }
                },
                _ => {},
            }
        } else if starts_with_slice(line, m.label.as_slice()) {
            let rest = remove_all_slice(line, m.label.as_slice());
            let label = unquoted_label_slice(rest.as_slice());
            if label.len() == 0 {
                self.app_label = "N/A".to_owned();
            } else {
                self.app_label = from_chars(label);
            }
        } else if starts_with_slice(line, m.localized_label.as_slice()) {
            match field_slice(line, ':', 1) {
                Some(text) => {
                    let label = unquoted_label_slice(text);
                    let missing = "N/A".to_owned();
                    if self.app_label == missing && label.len() > 0 {
                        self.app_label = from_chars(label);
                    }
                },
                None => {},
            }
        } else if starts_with_slice(line, m.uses_permission.as_slice()) {
            match quoted_slice(line, m.name_single.as_slice(), m.name_double.as_slice(), m) {
                DelimitedSlice::Value(v) => {
                    push_unique_string(&mut self.permissions, from_chars(v));
                },
                _ => {},
            }
        }
    }
}

/// Reads a badging dump. A field that the dump does not give reads `N/A`; a
/// version name that it gives as empty reads `Not set`. Nothing is an error.
pub fn parse_badging(output: &str) -> (info: BadgingInfo)
    ensures
        info@ == badging_of(output@),
        info.wf(),
{
    let chars = to_chars(output);
    let lines = split_lines(chars.as_slice());
    let markers = Markers::new();
    let mut info = BadgingInfo::unknown();
    let mut k: usize = 0;
    assert(line_views(lines@).take(0) =~= Seq::empty());
    while k < lines.len()
        invariant
            k <= lines.len(),
            markers.wf(),
            info@ == after_lines(line_views(lines@).take(k as int)),
        decreases lines.len() - k,
    {
        info.read_line(lines[k].as_slice(), &markers);
        proof {
            let all = line_views(lines@);
            assert(all.take(k + 1).drop_last() =~= all.take(k as int));
            assert(all.take(k + 1).last() == lines[k as int]@);
        }
        k += 1;
    }
    proof {
        assert(line_views(lines@).take(k as int) =~= line_views(lines@));
        lemma_permissions_no_duplicates(lines_of(output@));
    }
    info
}

} // verus!
