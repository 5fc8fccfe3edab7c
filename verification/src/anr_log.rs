//! Cutting a bug report or an event log into records of applications that did
//! not respond (ANR).
//!
//! The text has weaker marks than a crash log, so the machine is laxer. While
//! idle, a line that holds `ANR in `, or both `am_anr` and `reason:`, opens a
//! record; the line names the package, or failing that the process id, and its
//! first token is taken as the time, unexamined. While a record is open, every
//! line is added to it, and a line that is blank or that looks like the start
//! of a dated entry closes it. A closed record is kept if it passes the package
//! filter. A record that is still open when the text ends is dropped.

use crate::crash_log::passes;
use crate::search::contains;
use crate::search::contains_slice;
use crate::search::find;
use crate::search::find_slice;
use crate::split::line_views;
use crate::split::lines_of;
use crate::split::split_lines;
use crate::split::token;
use crate::split::token_slice;
use crate::text::from_chars;
use crate::text::is_blank;
use crate::text::is_blank_slice;
use crate::text::prefix_len;
use crate::text::scan_prefix;
use crate::text::str_text;
use crate::text::string_views;
use crate::text::to_chars;
use crate::text::CharClass;
use vstd::prelude::*;
use vstd::slice::slice_subrange;
use vstd::slice::slice_to_vec;

verus! {

/// One occurrence of an application that did not respond: the package, or the
/// process id, that the opening line names; the first token of that line, which
/// is usually a date or a time and is kept as written; and the lines of the
/// record, from the line that opened it to the line that closed it.
pub struct AnrRecord {
    pub package_or_pid: String,
    pub approx_time: String,
    pub lines: Vec<String>,
}

/// The mathematical content of an ANR record.
pub struct AnrBlock {
    pub package_or_pid: Seq<char>,
    pub approx_time: Seq<char>,
    pub lines: Seq<Seq<char>>,
}

impl View for AnrRecord {
    type V = AnrBlock;

    open spec fn view(&self) -> AnrBlock {
        AnrBlock {
            package_or_pid: self.package_or_pid@,
            approx_time: self.approx_time@,
            lines: string_views(self.lines@),
        }
    }
}

/// The ANR blocks that a vector of records holds.
pub open spec fn record_views(records: Seq<AnrRecord>) -> Seq<AnrBlock> {
    records.map_values(|r: AnrRecord| r@)
}

/// What has been read of a text: the record that is open, if one is, and the
/// records that were closed and kept.
pub struct AnrScan {
    pub open: Option<AnrBlock>,
    pub kept: Seq<AnrBlock>,
}

/// Whether a line opens a record.
pub open spec fn opens_anr(line: Seq<char>) -> bool {
    contains(line, "ANR in "@) || (contains(line, "am_anr"@) && contains(line, "reason:"@))
}

/// What follows the first occurrence of `marker` in `line`, up to the next
/// space; nothing where `marker` does not occur.
pub open spec fn word_after(line: Seq<char>, marker: Seq<char>) -> Seq<char> {
    match find(line, marker) {
        Some(i) => {
            let rest = line.skip(i + marker.len());
            rest.take(prefix_len(rest, CharClass::Except(' ')) as int)
        },
        None => Seq::empty(),
    }
}

/// The part of `line` before the first occurrence of `marker`; all of it where
/// `marker` does not occur.
pub open spec fn text_before(line: Seq<char>, marker: Seq<char>) -> Seq<char> {
    match find(line, marker) {
        Some(i) => line.take(i),
        None => line,
    }
}

/// The package or process id that an opening line names: the word after
/// `ANR in `; on a line without `ANR in `, the word after the first `pid: `
/// that stands before `reason:`; nothing where there is no such word.
pub open spec fn subject_named(line: Seq<char>) -> Seq<char> {
    if contains(line, "ANR in "@) {
        word_after(line, "ANR in "@)
    } else {
        word_after(text_before(line, "reason:"@), "pid: "@)
    }
}

/// The first token of a line, taken as the time of the record; nothing where
/// the line has no token.
pub open spec fn time_named(line: Seq<char>) -> Seq<char> {
    match token(line, 0) {
        Some(t) => t,
        None => Seq::empty(),
    }
}

/// Whether a line closes an open record: it is blank, or it holds a `-`, a `:`
/// and a `.`, as the dated first line of a log entry does.
pub open spec fn closes_anr(line: Seq<char>) -> bool {
    is_blank(line) || (line.contains('-') && line.contains(':') && line.contains('.'))
}

/// The scan before any line.
pub open spec fn start() -> AnrScan {
    AnrScan { open: None, kept: Seq::empty() }
}

/// The scan after one more line.
pub open spec fn after_line(scan: AnrScan, line: Seq<char>, filter: Option<Seq<char>>) -> AnrScan {
    match scan.open {
        None => if opens_anr(line) {
            AnrScan {
                open: Some(
                    AnrBlock {
                        package_or_pid: subject_named(line),
                        approx_time: time_named(line),
                        lines: seq![line],
                    },
                ),
                kept: scan.kept,
            }
        } else {
            scan
        },
        Some(block) => {
            let grown = AnrBlock {
                package_or_pid: block.package_or_pid,
                approx_time: block.approx_time,
                lines: block.lines.push(line),
            };
            if !closes_anr(line) {
                AnrScan { open: Some(grown), kept: scan.kept }
            } else if passes(filter, block.package_or_pid) {
                AnrScan { open: None, kept: scan.kept.push(grown) }
            } else {
                AnrScan { open: None, kept: scan.kept }
            }
        },
    }
}

/// The scan after the given lines, read in order.
pub open spec fn after_lines(lines: Seq<Seq<char>>, filter: Option<Seq<char>>) -> AnrScan
    decreases lines.len(),
{
    if lines.len() == 0 {
        start()
    } else {
        after_line(after_lines(lines.drop_last(), filter), lines.last(), filter)
    }
}

/// The ANR records of a text under a filter, in the order of the text.
pub open spec fn anrs_of(text: Seq<char>, filter: Option<Seq<char>>) -> Seq<AnrBlock> {
    after_lines(lines_of(text), filter).kept
}

/// Whether a block is a whole ANR record: it starts with an opening line, from
/// which its subject and its time are taken, it ends with a closing line, and no
/// line between the two closes.
pub open spec fn is_whole_record(block: AnrBlock) -> bool {
    &&& block.lines.len() >= 2
    &&& opens_anr(block.lines[0])
    &&& block.package_or_pid == subject_named(block.lines[0])
    &&& block.approx_time == time_named(block.lines[0])
    &&& closes_anr(block.lines.last())
    &&& forall|i: int| 0 < i < block.lines.len() - 1 ==> !closes_anr(#[trigger] block.lines[i])
}

/// Whether a block is a record that is still open: it starts with an opening
/// line, from which its subject and its time are taken, and no line after that
/// one closes.
pub open spec fn is_open_record(block: AnrBlock) -> bool {
    &&& block.lines.len() >= 1
    &&& opens_anr(block.lines[0])
    &&& block.package_or_pid == subject_named(block.lines[0])
    &&& block.approx_time == time_named(block.lines[0])
    &&& forall|i: int| 0 < i < block.lines.len() ==> !closes_anr(#[trigger] block.lines[i])
}

/// Every record that is kept is a whole record and passes the filter, and the
/// record that is open at the end, if one is, is an open record.
pub proof fn lemma_kept_records_are_whole(lines: Seq<Seq<char>>, filter: Option<Seq<char>>)
    ensures
        forall|i: int|
            0 <= i < after_lines(lines, filter).kept.len() ==> is_whole_record(
                #[trigger] after_lines(lines, filter).kept[i],
            ) && passes(filter, after_lines(lines, filter).kept[i].package_or_pid),
        after_lines(lines, filter).open matches Some(block) ==> is_open_record(block),
    decreases lines.len(),
{
    if lines.len() > 0 {
        let before = after_lines(lines.drop_last(), filter);
        let line = lines.last();
        lemma_kept_records_are_whole(lines.drop_last(), filter);
        match before.open {
            None => {},
            Some(block) => {
                let grown = block.lines.push(line);
                assert(grown[0] == block.lines[0]);
                assert forall|i: int| 0 < i < grown.len() - 1 implies !closes_anr(
                    #[trigger] grown[i],
                ) by {
                    assert(grown[i] == block.lines[i]);
                }
            },
        }
    }
}

/// The filter only selects: with a filter, the records kept are those of the
/// records kept without one whose subject holds the filter's text, in the same
/// order; and the same record, or none, is open at the end.
pub proof fn lemma_filter_selects(lines: Seq<Seq<char>>, wanted: Seq<char>)
    ensures
        after_lines(lines, Some(wanted)).kept == after_lines(lines, None).kept.filter(
            |block: AnrBlock| contains(block.package_or_pid, wanted),
        ),
        after_lines(lines, Some(wanted)).open == after_lines(lines, None).open,
    decreases lines.len(),
{
    let holds = |block: AnrBlock| contains(block.package_or_pid, wanted);
    if lines.len() > 0 {
        lemma_filter_selects(lines.drop_last(), wanted);
        let all = after_lines(lines.drop_last(), None);
        let chosen = after_lines(lines.drop_last(), Some(wanted));
        let all_now = after_lines(lines, None);
        let chosen_now = after_lines(lines, Some(wanted));
        assert(chosen.kept == all.kept.filter(holds));
        if all.open is Some && closes_anr(lines.last()) {
            let block = all.open->0;
            let grown = AnrBlock {
                package_or_pid: block.package_or_pid,
                approx_time: block.approx_time,
                lines: block.lines.push(lines.last()),
            };
            assert(all_now.kept == all.kept.push(grown));
            assert(holds(grown) == passes(Some(wanted), block.package_or_pid));
            all.kept.lemma_filter_push(grown, holds);
            assert(chosen.open == Some(block));
            assert(chosen_now.kept == if passes(Some(wanted), block.package_or_pid) {
                chosen.kept.push(grown)
            } else {
                chosen.kept
            });
        } else {
            assert(all_now.kept == all.kept);
            assert(chosen_now.kept == chosen.kept);
        }
    } else {
        assert(Seq::<AnrBlock>::empty().filter(holds) =~= Seq::empty());
    }
}

/// Lines none of which closes a record add no record: whatever was read before
/// them, the records kept stay the same. So a record that the end of the text
/// leaves open is never reported.
pub proof fn lemma_only_a_closing_line_closes(
    lines: Seq<Seq<char>>,
    more: Seq<Seq<char>>,
    filter: Option<Seq<char>>,
)
    requires
        forall|i: int| 0 <= i < more.len() ==> !closes_anr(#[trigger] more[i]),
    ensures
        after_lines(lines + more, filter).kept == after_lines(lines, filter).kept,
    decreases more.len(),
{
    if more.len() == 0 {
        assert(lines + more =~= lines);
    } else {
        let front = more.drop_last();
        assert forall|i: int| 0 <= i < front.len() implies !closes_anr(#[trigger] front[i]) by {
            assert(front[i] == more[i]);
        }
        lemma_only_a_closing_line_closes(lines, front, filter);
        assert((lines + more).drop_last() =~= lines + front);
        assert((lines + more).last() == more[more.len() - 1]);
    }
}

/// Whether a slice holds a character.
pub fn has_char(s: &[char], c: char) -> (b: bool)
    ensures
        b == s@.contains(c),
{
    let mut i: usize = 0;
    while i < s.len()
        invariant
            i <= s.len(),
            forall|j: int| 0 <= j < i ==> s@[j] != c,
        decreases s.len() - i,
    {
        if s[i] == c {
            return true;
        }
        i += 1;
    }
    false
}

/// The markers of an opening line, as characters.
pub struct AnrMarkers {
    anr_in: Vec<char>,
    am_anr: Vec<char>,
    reason: Vec<char>,
    pid: Vec<char>,
}

impl AnrMarkers {
    /// The four vectors hold `ANR in `, `am_anr`, `reason:` and `pid: `.
    pub closed spec fn wf(&self) -> bool {
        &&& self.anr_in@ == "ANR in "@
        &&& self.am_anr@ == "am_anr"@
        &&& self.reason@ == "reason:"@
        &&& self.pid@ == "pid: "@
    }

    /// The markers.
    pub fn new() -> (m: AnrMarkers)
        ensures
            m.wf(),
    {
        AnrMarkers {
            anr_in: to_chars("ANR in "),
            am_anr: to_chars("am_anr"),
            reason: to_chars("reason:"),
            pid: to_chars("pid: "),
        }
    }

    /// Decides `opens_anr`.
    pub fn opens_anr(&self, line: &[char]) -> (b: bool)
        requires
            self.wf(),
        ensures
            b == opens_anr(line@),
    {
        contains_slice(line, self.anr_in.as_slice()) || (contains_slice(
            line,
            self.am_anr.as_slice(),
        ) && contains_slice(line, self.reason.as_slice()))
    }

    /// Computes `subject_named`.
    pub fn subject_named(&self, line: &[char]) -> (subject: Vec<char>)
        requires
            self.wf(),
        ensures
            subject@ == subject_named(line@),
    {
        if contains_slice(line, self.anr_in.as_slice()) {
            slice_to_vec(word_after_slice(line, self.anr_in.as_slice()))
        } else {
            let head = match find_slice(line, self.reason.as_slice()) {
                Some(i) => slice_subrange(line, 0, i),
                None => line,
            };
            slice_to_vec(word_after_slice(head, self.pid.as_slice()))
        }
    }
}

/// Computes `word_after`.
pub fn word_after_slice<'a>(line: &'a [char], marker: &[char]) -> (word: &'a [char])
    ensures
        word@ == word_after(line@, marker@),
{
    match find_slice(line, marker) {
        Some(i) => {
            let start = i + marker.len();
            let n = scan_prefix(line, start, CharClass::Except(' '));
            assert(line@.skip(start as int).take(n as int) =~= line@.subrange(
                start as int,
                start + n,
            ));
            slice_subrange(line, start, start + n)
        },
        None => {
            assert(line@.subrange(0, 0) =~= Seq::empty());
            slice_subrange(line, 0, 0)
        },
    }
}

/// Decides `closes_anr`.
pub fn closes_anr_slice(line: &[char]) -> (b: bool)
    ensures
        b == closes_anr(line@),
{
    is_blank_slice(line) || (has_char(line, '-') && has_char(line, ':') && has_char(line, '.'))
}

/// The state of the segmenter between two lines.
pub enum AnrState {
    /// No record is open.
    Idle,
    /// A record is open: its subject, its time and the lines read so far.
    InAnr { subject: Vec<char>, time: String, lines: Vec<String> },
}

impl View for AnrState {
    type V = Option<AnrBlock>;

    open spec fn view(&self) -> Option<AnrBlock> {
        match self {
            AnrState::Idle => None,
            AnrState::InAnr { subject, time, lines } => Some(
                AnrBlock {
                    package_or_pid: subject@,
                    approx_time: time@,
                    lines: string_views(lines@),
                },
            ),
        }
    }
}

/// Reads a bug report line by line and collects its ANR records.
pub struct AnrLogSegmenter {
    /// The text that the subject of a record must hold for the record to be
    /// kept, if there is such a demand.
    pub filter: Option<Vec<char>>,
    /// The number of minutes that the caller asked to look back. The time of a
    /// record is not examined, so no record is dropped on account of it; the
    /// number is only kept here for the caller's report.
    pub since_minutes: u32,
    pub state: AnrState,
    /// The records closed and kept so far, in the order of the text.
    pub kept: Vec<AnrRecord>,
    pub markers: AnrMarkers,
}

impl View for AnrLogSegmenter {
    type V = AnrScan;

    open spec fn view(&self) -> AnrScan {
        AnrScan { open: self.state@, kept: record_views(self.kept@) }
    }
}

impl AnrLogSegmenter {
    /// The markers are in place, and an open record holds at least the line that
    /// opened it.
    pub open spec fn wf(&self) -> bool {
        &&& self.markers.wf()
        &&& self@.open matches Some(block) ==> block.lines.len() > 0
    }

    /// The filter's text.
    pub open spec fn filter_text(&self) -> Option<Seq<char>> {
        match self.filter {
            Some(wanted) => Some(wanted@),
            None => None,
        }
    }

    /// A segmenter that has read nothing.
    pub fn new(filter: Option<&str>, since_minutes: u32) -> (s: AnrLogSegmenter)
        ensures
            s.wf(),
            s@ == start(),
            s.filter_text() == str_text(filter),
            s.since_minutes == since_minutes,
    {
        let filter = match filter {
            Some(wanted) => Some(to_chars(wanted)),
            None => None,
        };
        let s = AnrLogSegmenter {
            filter,
            since_minutes,
            state: AnrState::Idle,
            kept: Vec::new(),
            markers: AnrMarkers::new(),
        };
        assert(record_views(s.kept@) =~= Seq::empty());
        s
    }

    /// Decides `passes` for the segmenter's filter.
    fn passes(&self, subject: &[char]) -> (b: bool)
        ensures
            b == passes(self.filter_text(), subject@),
    {
        match &self.filter {
            Some(wanted) => contains_slice(subject, wanted.as_slice()),
            None => true,
        }
    }

    /// Reads one more line, given as characters.
    pub fn feed(&mut self, line: &[char])
        requires
            old(self).wf(),
        ensures
            final(self).wf(),
            final(self)@ == after_line(old(self)@, line@, old(self).filter_text()),
            final(self).filter_text() == old(self).filter_text(),
            final(self).since_minutes == old(self).since_minutes,
    {
        let mut state = AnrState::Idle;
        std::mem::swap(&mut state, &mut self.state);
        match state {
            AnrState::Idle => {
                if self.markers.opens_anr(line) {
                    let mut lines: Vec<String> = Vec::new();
                    lines.push(from_chars(line));
                    assert(string_views(lines@) =~= seq![line@]);
                    let time = match token_slice(line, 0) {
                        Some(t) => from_chars(t),
                        None => String::new(),
                    };
                    self.state = AnrState::InAnr {
                        subject: self.markers.subject_named(line),
                        time,
                        lines,
                    };
                }
            },
            AnrState::InAnr { subject, time, lines } => {
                let mut lines = lines;
                let ghost before = string_views(lines@);
                lines.push(from_chars(line));
                assert(string_views(lines@) =~= before.push(line@));
                if !closes_anr_slice(line) {
                    self.state = AnrState::InAnr { subject, time, lines };
                } else if self.passes(subject.as_slice()) {
                    let record = AnrRecord {
                        package_or_pid: from_chars(subject.as_slice()),
                        approx_time: time,
                        lines,
                    };
                    let ghost kept = record_views(self.kept@);
                    self.kept.push(record);
                    assert(record_views(self.kept@) =~= kept.push(record@));
                }
            },
        }
    }

    /// Reads one more line.
    pub fn push_line(&mut self, line: &str)
        requires
            old(self).wf(),
        ensures
            final(self).wf(),
            final(self)@ == after_line(old(self)@, line@, old(self).filter_text()),
            final(self).filter_text() == old(self).filter_text(),
            final(self).since_minutes == old(self).since_minutes,
    {
        let chars = to_chars(line);
        self.feed(chars.as_slice());
    }

    /// Whether a record is open.
    pub fn in_anr(&self) -> (b: bool)
        ensures
            b == self@.open.is_some(),
    {
        match &self.state {
            AnrState::Idle => false,
            AnrState::InAnr { .. } => true,
        }
    }

    /// Ends the reading: the records kept, in the order of the text. A record
    /// that is still open is dropped.
    pub fn finish(self) -> (records: Vec<AnrRecord>)
        ensures
            record_views(records@) == self@.kept,
    {
        self.kept
    }
}

/// Cuts a text into its ANR records and keeps those that pass the filter. The
/// result does not depend on `since_minutes`: the time of a record is a label
/// that is not compared with anything. An empty result says that the text holds
/// no such record.
pub fn segment_anrs(text: &str, filter: Option<&str>, since_minutes: u32) -> (records: Vec<
    AnrRecord,
>)
    ensures
        record_views(records@) == anrs_of(text@, str_text(filter)),
{
    let chars = to_chars(text);
    let lines = split_lines(chars.as_slice());
    let mut segmenter = AnrLogSegmenter::new(filter, since_minutes);
    let mut k: usize = 0;
    assert(line_views(lines@).take(0) =~= Seq::empty());
    while k < lines.len()
        invariant
            k <= lines.len(),
            segmenter.wf(),
            segmenter.filter_text() == str_text(filter),
            segmenter@ == after_lines(line_views(lines@).take(k as int), str_text(filter)),
        decreases lines.len() - k,
    {
        segmenter.feed(lines[k].as_slice());
        proof {
            let all = line_views(lines@);
            assert(all.take(k + 1).drop_last() =~= all.take(k as int));
            assert(all.take(k + 1).last() == lines[k as int]@);
        }
        k += 1;
    }
    assert(line_views(lines@).take(k as int) =~= line_views(lines@));
    segmenter.finish()
}

} // verus!
