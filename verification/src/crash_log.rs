//! Cutting a native crash log into crash records.
//!
//! The log is read line by line by a machine with two states. While idle, a
//! line that holds the three markers `DEBUG`, `>>> ` and ` <<<` opens a record
//! and names its process. While a record is open, every line is added to it,
//! marker lines too, and a blank line closes it. A closed record is kept if it
//! passes the package filter. A record that is still open when the log ends is
//! dropped.

use crate::search::between;
use crate::search::between_slice;
use crate::search::contains;
use crate::search::contains_slice;
use crate::search::Delimited;
use crate::search::DelimitedSlice;
use crate::split::line_views;
use crate::split::lines_of;
use crate::split::split_lines;
use crate::text::from_chars;
use crate::text::is_blank;
use crate::text::is_blank_slice;
use crate::text::str_text;
use crate::text::string_views;
use crate::text::to_chars;
use vstd::prelude::*;
use vstd::slice::slice_to_vec;

verus! {

/// One native crash: the process or package that crashed and the lines of its
/// report, from the line that opened it to the blank line that closed it.
pub struct CrashRecord {
    pub process_or_package: String,
    pub lines: Vec<String>,
}

/// The mathematical content of a crash record.
pub struct CrashBlock {
    pub process_or_package: Seq<char>,
    pub lines: Seq<Seq<char>>,
}

impl View for CrashRecord {
    type V = CrashBlock;

    open spec fn view(&self) -> CrashBlock {
        CrashBlock {
            process_or_package: self.process_or_package@,
            lines: string_views(self.lines@),
        }
    }
}

/// The crash blocks that a vector of records holds.
pub open spec fn record_views(records: Seq<CrashRecord>) -> Seq<CrashBlock> {
    records.map_values(|r: CrashRecord| r@)
}

/// What has been read of a log: the record that is open, if one is, and the
/// records that were closed and kept.
pub struct CrashScan {
    pub open: Option<CrashBlock>,
    pub kept: Seq<CrashBlock>,
}

/// Whether a line opens a record: it holds `DEBUG`, `>>> ` and ` <<<`.
pub open spec fn opens_crash(line: Seq<char>) -> bool {
    contains(line, "DEBUG"@) && contains(line, ">>> "@) && contains(line, " <<<"@)
}

/// The process that an opening line names: what stands between the first
/// `>>> ` and the first ` <<<` after it, and nothing where no ` <<<` follows.
pub open spec fn process_named(line: Seq<char>) -> Seq<char> {
    match between(line, ">>> "@, " <<<"@) {
        Delimited::Value(name) => name,
        _ => Seq::empty(),
    }
}

/// Whether a record of the given process passes the filter: without a filter
/// every record does, with one those whose process holds the filter's text.
pub open spec fn passes(filter: Option<Seq<char>>, process: Seq<char>) -> bool {
    match filter {
        Some(wanted) => contains(process, wanted),
        None => true,
    }
}

/// The scan before any line.
pub open spec fn start() -> CrashScan {
    CrashScan { open: None, kept: Seq::empty() }
}

/// The scan after one more line.
pub open spec fn after_line(scan: CrashScan, line: Seq<char>, filter: Option<Seq<char>>) -> CrashScan {
    match scan.open {
        None => if opens_crash(line) {
            CrashScan {
                open: Some(CrashBlock { process_or_package: process_named(line), lines: seq![line] }),
                kept: scan.kept,
            }
        } else {
            scan
        },
        Some(block) => {
            let grown = CrashBlock {
                process_or_package: block.process_or_package,
                lines: block.lines.push(line),
            };
            if !is_blank(line) {
                CrashScan { open: Some(grown), kept: scan.kept }
            } else if passes(filter, block.process_or_package) {
                CrashScan { open: None, kept: scan.kept.push(grown) }
            } else {
                CrashScan { open: None, kept: scan.kept }
            }
        },
    }
}

/// The scan after the given lines, read in order.
pub open spec fn after_lines(lines: Seq<Seq<char>>, filter: Option<Seq<char>>) -> CrashScan
    decreases lines.len(),
{
    if lines.len() == 0 {
        start()
    } else {
        after_line(after_lines(lines.drop_last(), filter), lines.last(), filter)
    }
}

/// The crash records of a log under a filter, in the order of the log.
pub open spec fn crashes_of(log: Seq<char>, filter: Option<Seq<char>>) -> Seq<CrashBlock> {
    after_lines(lines_of(log), filter).kept
}

/// Whether a block is a whole crash record: it starts with an opening line that
/// names its process, it ends with a blank line, and no line before the last is
/// blank.
pub open spec fn is_whole_record(block: CrashBlock) -> bool {
    &&& block.lines.len() >= 2
    &&& opens_crash(block.lines[0])
    &&& block.process_or_package == process_named(block.lines[0])
    &&& is_blank(block.lines.last())
    &&& forall|i: int| 0 <= i < block.lines.len() - 1 ==> !is_blank(#[trigger] block.lines[i])
}

/// Whether a block is a record that is still open: it starts with an opening
/// line that names its process, and none of its lines is blank.
pub open spec fn is_open_record(block: CrashBlock) -> bool {
    &&& block.lines.len() >= 1
    &&& opens_crash(block.lines[0])
    &&& block.process_or_package == process_named(block.lines[0])
    &&& forall|i: int| 0 <= i < block.lines.len() ==> !is_blank(#[trigger] block.lines[i])
}

/// An opening line is not blank.
pub proof fn lemma_opening_line_is_not_blank(line: Seq<char>)
    requires
        opens_crash(line),
    ensures
        !is_blank(line),
{
    crate::text::lemma_blank_holds_only_whitespace(line);
    reveal_strlit("DEBUG");
    crate::search::lemma_find(line, "DEBUG"@);
    let i = crate::search::find(line, "DEBUG"@)->0;
    assert(line.subrange(i, i + 5)[0] == 'D');
}

/// Every record that is kept is a whole record and passes the filter, and the
/// record that is open at the end, if one is, is an open record.
pub proof fn lemma_kept_records_are_whole(lines: Seq<Seq<char>>, filter: Option<Seq<char>>)
    ensures
        forall|i: int|
            0 <= i < after_lines(lines, filter).kept.len() ==> is_whole_record(
                #[trigger] after_lines(lines, filter).kept[i],
            ) && passes(filter, after_lines(lines, filter).kept[i].process_or_package),
        after_lines(lines, filter).open matches Some(block) ==> is_open_record(block),
    decreases lines.len(),
{
    if lines.len() > 0 {
        let before = after_lines(lines.drop_last(), filter);
        let line = lines.last();
        lemma_kept_records_are_whole(lines.drop_last(), filter);
        match before.open {
            None => {
                if opens_crash(line) {
                    lemma_opening_line_is_not_blank(line);
                }
            },
            Some(block) => {
                let grown = block.lines.push(line);
                assert(grown[0] == block.lines[0]);
                assert forall|i: int| 0 <= i < grown.len() - 1 implies !is_blank(
                    #[trigger] grown[i],
                ) by {
                    assert(grown[i] == block.lines[i]);
                }
            },
        }
    }
}

/// The filter only selects: with a filter, the records kept are those of the
/// records kept without one whose process holds the filter's text, in the same
/// order; and the same record, or none, is open at the end.
pub proof fn lemma_filter_selects(lines: Seq<Seq<char>>, wanted: Seq<char>)
    ensures
        after_lines(lines, Some(wanted)).kept == after_lines(lines, None).kept.filter(
            |block: CrashBlock| contains(block.process_or_package, wanted),
        ),
        after_lines(lines, Some(wanted)).open == after_lines(lines, None).open,
    decreases lines.len(),
{
    let holds = |block: CrashBlock| contains(block.process_or_package, wanted);
    if lines.len() > 0 {
        lemma_filter_selects(lines.drop_last(), wanted);
        let all = after_lines(lines.drop_last(), None);
        let chosen = after_lines(lines.drop_last(), Some(wanted));
        let all_now = after_lines(lines, None);
        let chosen_now = after_lines(lines, Some(wanted));
        assert(chosen.kept == all.kept.filter(holds));
        if all.open is Some && is_blank(lines.last()) {
            let block = all.open->0;
            let grown = CrashBlock {
                process_or_package: block.process_or_package,
                lines: block.lines.push(lines.last()),
            };
            assert(all_now.kept == all.kept.push(grown));
            assert(holds(grown) == passes(Some(wanted), block.process_or_package));
            all.kept.lemma_filter_push(grown, holds);
            assert(all_now.kept.filter(holds) == if holds(grown) {
                all.kept.filter(holds).push(grown)
            } else {
                all.kept.filter(holds)
            });
            assert(chosen.open == Some(block));
            assert(chosen_now.kept == if passes(Some(wanted), block.process_or_package) {
                chosen.kept.push(grown)
            } else {
                chosen.kept
            });
        } else {
            assert(all_now.kept == all.kept);
            assert(chosen_now.kept == chosen.kept);
        }
    } else {
        assert(Seq::<CrashBlock>::empty().filter(holds) =~= Seq::empty());
    }
}

/// Lines without a blank one among them close no record: whatever was read
/// before them, the records kept stay the same. So a record that the end of the
/// log leaves open is never reported.
pub proof fn lemma_only_a_blank_line_closes(
    lines: Seq<Seq<char>>,
    more: Seq<Seq<char>>,
    filter: Option<Seq<char>>,
)
    requires
        forall|i: int| 0 <= i < more.len() ==> !is_blank(#[trigger] more[i]),
    ensures
        after_lines(lines + more, filter).kept == after_lines(lines, filter).kept,
    decreases more.len(),
{
    if more.len() == 0 {
        assert(lines + more =~= lines);
    } else {
        let front = more.drop_last();
        assert forall|i: int| 0 <= i < front.len() implies !is_blank(#[trigger] front[i]) by {
            assert(front[i] == more[i]);
        }
        lemma_only_a_blank_line_closes(lines, front, filter);
        assert((lines + more).drop_last() =~= lines + front);
        assert((lines + more).last() == more[more.len() - 1]);
    }
}

/// The records kept lie in the log one after the other: the returned positions,
/// one for each record, say where in `lines` the record starts; the record is
/// the run of lines from there; and each record ends before the next starts.
pub proof fn lemma_records_lie_in_order(lines: Seq<Seq<char>>, filter: Option<Seq<char>>) -> (at:
    Seq<int>)
    ensures
        at.len() == after_lines(lines, filter).kept.len(),
        forall|i: int|
            0 <= i < at.len() ==> 0 <= #[trigger] at[i] && at[i] + after_lines(
                lines,
                filter,
            ).kept[i].lines.len() <= lines.len() && lines.subrange(
                at[i],
                at[i] + after_lines(lines, filter).kept[i].lines.len(),
            ) == after_lines(lines, filter).kept[i].lines,
        forall|i: int, j: int|
            0 <= i < j < at.len() ==> at[i] + after_lines(lines, filter).kept[i].lines.len()
                <= at[j],
        after_lines(lines, filter).open matches Some(block) ==> {
            &&& block.lines.len() <= lines.len()
            &&& lines.subrange(lines.len() - block.lines.len(), lines.len() as int) == block.lines
            &&& forall|i: int|
                0 <= i < at.len() ==> at[i] + after_lines(lines, filter).kept[i].lines.len()
                    <= lines.len() - block.lines.len()
        },
    decreases lines.len(),
{
    if lines.len() == 0 {
        Seq::empty()
    } else {
        let front = lines.drop_last();
        let line = lines.last();
        let before = after_lines(front, filter);
        let now = after_lines(lines, filter);
        let at = lemma_records_lie_in_order(front, filter);
        assert forall|i: int| 0 <= i < at.len() implies lines.subrange(
            #[trigger] at[i],
            at[i] + before.kept[i].lines.len(),
        ) == before.kept[i].lines by {
            assert(lines.subrange(at[i], at[i] + before.kept[i].lines.len()) =~= front.subrange(
                at[i],
                at[i] + before.kept[i].lines.len(),
            ));
        }
        match before.open {
            None => {
                if opens_crash(line) {
                    assert(lines.subrange(lines.len() - 1, lines.len() as int) =~= seq![line]);
                }
                at
            },
            Some(block) => {
                let start = front.len() - block.lines.len();
                assert(lines.subrange(start, lines.len() as int) =~= block.lines.push(line)) by {
                    assert(front.subrange(start, front.len() as int) == block.lines);
                    assert forall|i: int| 0 <= i < block.lines.len() implies lines[start + i]
                        == block.lines[i] by {
                        assert(front.subrange(start, front.len() as int)[i] == front[start + i]);
                    }
                }
                if is_blank(line) && passes(filter, block.process_or_package) {
                    at.push(start)
                } else {
                    at
                }
            },
        }
    }
}

/// The markers of an opening line, as characters.
pub struct CrashMarkers {
    debug: Vec<char>,
    opening: Vec<char>,
    closing: Vec<char>,
}

impl CrashMarkers {
    /// The three vectors hold `DEBUG`, `>>> ` and ` <<<`.
    pub closed spec fn wf(&self) -> bool {
        &&& self.debug@ == "DEBUG"@
        &&& self.opening@ == ">>> "@
        &&& self.closing@ == " <<<"@
    }

    /// The markers.
    pub fn new() -> (m: CrashMarkers)
        ensures
            m.wf(),
    {
        CrashMarkers { debug: to_chars("DEBUG"), opening: to_chars(">>> "), closing: to_chars(" <<<") }
    }

    /// Decides `opens_crash`.
    pub fn opens_crash(&self, line: &[char]) -> (b: bool)
        requires
            self.wf(),
        ensures
            b == opens_crash(line@),
    {
        contains_slice(line, self.debug.as_slice()) && contains_slice(
            line,
            self.opening.as_slice(),
        ) && contains_slice(line, self.closing.as_slice())
    }

    /// Computes `process_named`.
    pub fn process_named(&self, line: &[char]) -> (name: Vec<char>)
        requires
            self.wf(),
        ensures
            name@ == process_named(line@),
    {
        match between_slice(line, self.opening.as_slice(), self.closing.as_slice()) {
            DelimitedSlice::Value(name) => slice_to_vec(name),
            _ => Vec::new(),
        }
    }
}

/// The state of the segmenter between two lines.
pub enum CrashState {
    /// No record is open.
    Idle,
    /// A record is open: the process it names and the lines read so far.
    InCrash { process: Vec<char>, lines: Vec<String> },
}

impl View for CrashState {
    type V = Option<CrashBlock>;

    open spec fn view(&self) -> Option<CrashBlock> {
        match self {
            CrashState::Idle => None,
            CrashState::InCrash { process, lines } => Some(
                CrashBlock { process_or_package: process@, lines: string_views(lines@) },
            ),
        }
    }
}

/// Reads a crash log line by line and collects its crash records.
pub struct CrashLogSegmenter {
    /// The text that the process of a record must hold for the record to be
    /// kept, if there is such a demand.
    pub filter: Option<Vec<char>>,
    pub state: CrashState,
    /// The records closed and kept so far, in the order of the log.
    pub kept: Vec<CrashRecord>,
    pub markers: CrashMarkers,
}

impl View for CrashLogSegmenter {
    type V = CrashScan;

    open spec fn view(&self) -> CrashScan {
        CrashScan { open: self.state@, kept: record_views(self.kept@) }
    }
}

impl CrashLogSegmenter {
    /// The markers are in place, and an open record holds at least the line that
    /// opened it.
    pub open spec fn wf(&self) -> bool {
        &&& self.markers.wf()
        &&& self@.open matches Some(block) ==> block.lines.len() > 0
    }

    /// The filter's text.
    pub open spec fn filter_text(&self) -> Option<Seq<char>> {
        match self.filter {
            Some(wanted) => Some(wanted@),
            None => None,
        }
    }

    /// A segmenter that has read nothing.
    pub fn new(filter: Option<&str>) -> (s: CrashLogSegmenter)
        ensures
            s.wf(),
            s@ == start(),
            s.filter_text() == str_text(filter),
    {
        let filter = match filter {
            Some(wanted) => Some(to_chars(wanted)),
            None => None,
        };
        let s = CrashLogSegmenter {
            filter,
            state: CrashState::Idle,
            kept: Vec::new(),
            markers: CrashMarkers::new(),
        };
        assert(record_views(s.kept@) =~= Seq::empty());
        s
    }

    /// Decides `passes` for the segmenter's filter.
    fn passes(&self, process: &[char]) -> (b: bool)
        ensures
            b == passes(self.filter_text(), process@),
    {
        match &self.filter {
            Some(wanted) => contains_slice(process, wanted.as_slice()),
            None => true,
        }
    }

    /// Reads one more line, given as characters.
    pub fn feed(&mut self, line: &[char])
        requires
            old(self).wf(),
        ensures
            final(self).wf(),
            final(self)@ == after_line(old(self)@, line@, old(self).filter_text()),
            final(self).filter_text() == old(self).filter_text(),
    {
        let mut state = CrashState::Idle;
        std::mem::swap(&mut state, &mut self.state);
        match state {
            CrashState::Idle => {
                if self.markers.opens_crash(line) {
                    let mut lines: Vec<String> = Vec::new();
                    lines.push(from_chars(line));
                    assert(string_views(lines@) =~= seq![line@]);
                    self.state = CrashState::InCrash {
                        process: self.markers.process_named(line),
                        lines,
                    };
                }
            },
            CrashState::InCrash { process, lines } => {
                let mut lines = lines;
                let ghost before = string_views(lines@);
                lines.push(from_chars(line));
                assert(string_views(lines@) =~= before.push(line@));
                if !is_blank_slice(line) {
                    self.state = CrashState::InCrash { process, lines };
                } else if self.passes(process.as_slice()) {
                    let record = CrashRecord {
                        process_or_package: from_chars(process.as_slice()),
                        lines,
                    };
                    let ghost kept = record_views(self.kept@);
                    self.kept.push(record);
                    assert(record_views(self.kept@) =~= kept.push(record@));
                }
            },
        }
    }

    /// Reads one more line.
    pub fn push_line(&mut self, line: &str)
        requires
            old(self).wf(),
        ensures
            final(self).wf(),
            final(self)@ == after_line(old(self)@, line@, old(self).filter_text()),
            final(self).filter_text() == old(self).filter_text(),
    {
        let chars = to_chars(line);
        self.feed(chars.as_slice());
    }

    /// Whether a record is open.
    pub fn in_crash(&self) -> (b: bool)
        ensures
            b == self@.open.is_some(),
    {
        match &self.state {
            CrashState::Idle => false,
            CrashState::InCrash { .. } => true,
        }
    }

    /// Ends the reading: the records kept, in the order of the log. A record
    /// that is still open is dropped.
    pub fn finish(self) -> (records: Vec<CrashRecord>)
        ensures
            record_views(records@) == self@.kept,
    {
        self.kept
    }
}

/// Cuts a crash log into its crash records and keeps those that pass the
/// filter. An empty result says that the log holds no such crash.
pub fn segment_crashes(log: &str, filter: Option<&str>) -> (records: Vec<CrashRecord>)
    ensures
        record_views(records@) == crashes_of(log@, str_text(filter)),
{
    let chars = to_chars(log);
    let lines = split_lines(chars.as_slice());
    let mut segmenter = CrashLogSegmenter::new(filter);
    let mut k: usize = 0;
    assert(line_views(lines@).take(0) =~= Seq::empty());
    while k < lines.len()
        invariant
            k <= lines.len(),
            segmenter.wf(),
            segmenter.filter_text() == str_text(filter),
            segmenter@ == after_lines(line_views(lines@).take(k as int), str_text(filter)),
        decreases lines.len() - k,
    {
        segmenter.feed(lines[k].as_slice());
        proof {
            let all = line_views(lines@);
            assert(all.take(k + 1).drop_last() =~= all.take(k as int));
            assert(all.take(k + 1).last() == lines[k as int]@);
        }
        k += 1;
    }
    assert(line_views(lines@).take(k as int) =~= line_views(lines@));
    segmenter.finish()
}

} // verus!
