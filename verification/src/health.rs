//! Reading what a device prints about its health: the battery, the storage and
//! the memory. The figures are handed on as they are written; turning them into
//! numbers and units is left to the caller.

use crate::search::starts_with;
use crate::search::starts_with_slice;
use crate::split::field;
use crate::split::field_slice;
use crate::split::first_where;
use crate::split::lemma_first_where_is;
use crate::split::lemma_first_where_none;
use crate::split::line_views;
use crate::split::lines_of;
use crate::split::remove_all;
use crate::split::remove_all_slice;
use crate::split::split_lines;
use crate::split::token;
use crate::split::token_slice;
use crate::text::from_chars;
use crate::text::string_text;
use crate::text::to_chars;
use crate::text::trim;
use crate::text::trim_slice;
use vstd::prelude::*;

verus! {

/// The text that stands for a figure that the device does not give.
pub open spec fn not_available() -> Seq<char> {
    "N/A"@
}

/// The value on a line of the form `key: value`: what stands between the first
/// and the second `:` of the trimmed line, trimmed; nothing where the line has
/// no `:`.
pub open spec fn value_on(line: Seq<char>) -> Seq<char> {
    match field(trim(line), ':', 1) {
        Some(v) => trim(v),
        None => Seq::empty(),
    }
}

/// The value of the last line that, once trimmed, starts with `key`, and
/// `current` where no line does.
pub open spec fn last_value(lines: Seq<Seq<char>>, key: Seq<char>, current: Seq<char>) -> Seq<char>
    decreases lines.len(),
{
    if lines.len() == 0 {
        current
    } else if starts_with(trim(lines.last()), key) {
        value_on(lines.last())
    } else {
        last_value(lines.drop_last(), key, current)
    }
}

/// What a battery dump says: the level in percent and the status code, each as
/// written, and `N/A` for one that the dump does not give.
pub struct BatteryStatus {
    pub level: String,
    pub status: String,
}

/// The last value of a key in the lines, computed.
fn find_last_value(lines: &Vec<Vec<char>>, key: &[char]) -> (value: String)
    ensures
        value@ == last_value(line_views(lines@), key@, not_available()),
{
    let ghost all = line_views(lines@);
    let mut value = "N/A".to_owned();
    let mut k: usize = 0;
    assert(all.take(0) =~= Seq::empty());
    while k < lines.len()
        invariant
            k <= lines.len(),
            all == line_views(lines@),
            value@ == last_value(all.take(k as int), key@, not_available()),
        decreases lines.len() - k,
    {
        let line = trim_slice(lines[k].as_slice());
        proof {
            assert(all.take(k + 1).drop_last() =~= all.take(k as int));
            assert(all.take(k + 1).last() == lines[k as int]@);
        }
        if starts_with_slice(line, key) {
            value = match field_slice(line, ':', 1) {
                Some(v) => from_chars(trim_slice(v)),
                None => String::new(),
            };
        }
        k += 1;
    }
    assert(all.take(k as int) =~= all);
    value
}

/// Reads a battery dump: the values of its last `level:` and `status:` lines.
pub fn parse_battery(dump: &str) -> (battery: BatteryStatus)
    ensures
        battery.level@ == last_value(lines_of(dump@), "level:"@, not_available()),
        battery.status@ == last_value(lines_of(dump@), "status:"@, not_available()),
{
    let chars = to_chars(dump);
    let lines = split_lines(chars.as_slice());
    let level = to_chars("level:");
    let status = to_chars("status:");
    BatteryStatus {
        level: find_last_value(&lines, level.as_slice()),
        status: find_last_value(&lines, status.as_slice()),
    }
}

/// The figures of one file system in a table of disk usage, in kilobytes and as
/// written but for the commas, which are taken out.
pub struct StorageFigures {
    pub total_kb: String,
    pub used_kb: String,
    pub free_kb: String,
}

/// The mathematical content of `StorageFigures`.
pub struct StorageColumns {
    pub total_kb: Seq<char>,
    pub used_kb: Seq<char>,
    pub free_kb: Seq<char>,
}

impl View for StorageFigures {
    type V = StorageColumns;

    open spec fn view(&self) -> StorageColumns {
        StorageColumns { total_kb: self.total_kb@, used_kb: self.used_kb@, free_kb: self.free_kb@ }
    }
}

/// Whether a line of the table has the five columns of a file system.
pub open spec fn is_storage_row(line: Seq<char>) -> bool {
    token(line, 4) is Some
}

/// A column of a row, without commas.
pub open spec fn column(line: Seq<char>, n: nat) -> Seq<char> {
    match token(line, n) {
        Some(t) => remove_all(t, ","@),
        None => Seq::empty(),
    }
}

/// The figures on a row: its second, third and fourth columns.
pub open spec fn figures_on(line: Seq<char>) -> StorageColumns {
    StorageColumns { total_kb: column(line, 1), used_kb: column(line, 2), free_kb: column(line, 3) }
}

/// The lines of a table after its heading, which is its first line.
pub open spec fn rows_of(table: Seq<char>) -> Seq<Seq<char>> {
    if lines_of(table).len() > 0 {
        lines_of(table).skip(1)
    } else {
        Seq::empty()
    }
}

/// The figures of a table of disk usage: those of the first row with five
/// columns, the heading in the first line not counted.
pub open spec fn storage_of(table: Seq<char>) -> Option<StorageColumns> {
    let rows = rows_of(table);
    match first_where(rows, |line: Seq<char>| is_storage_row(line)) {
        Some(i) => Some(figures_on(rows[i])),
        None => None,
    }
}

/// The figures that an optional record holds.
pub open spec fn figures_view(figures: Option<StorageFigures>) -> Option<StorageColumns> {
    match figures {
        Some(f) => Some(f@),
        None => None,
    }
}

/// A column of a row, without commas, computed.
fn column_of(line: &[char], n: usize, comma: &[char]) -> (text: String)
    requires
        comma@ == ","@,
    ensures
        text@ == column(line@, n as nat),
{
    match token_slice(line, n) {
        Some(t) => {
            let bare = remove_all_slice(t, comma);
            from_chars(bare.as_slice())
        },
        None => String::new(),
    }
}

/// Reads a table of disk usage.
pub fn parse_storage(table: &str) -> (figures: Option<StorageFigures>)
    ensures
        figures_view(figures) == storage_of(table@),
{
    let chars = to_chars(table);
    let lines = split_lines(chars.as_slice());
    let comma = to_chars(",");
    let ghost rows = rows_of(table@);
    let ghost p = |line: Seq<char>| is_storage_row(line);
    if lines.len() <= 1 {
        proof {
            assert(rows.len() == 0);
        }
        return None;
    }
    let mut k: usize = 1;
    while k < lines.len()
        invariant
            1 <= k <= lines.len(),
            rows == line_views(lines@).skip(1),
            rows == rows_of(table@),
            p == (|line: Seq<char>| is_storage_row(line)),
            comma@ == ","@,
            forall|i: int| 0 <= i < k - 1 ==> !p(#[trigger] rows[i]),
        decreases lines.len() - k,
    {
        let line = lines[k].as_slice();
        assert(rows[k - 1] == line@);
        if token_slice(line, 4).is_some() {
            proof {
                assert(p(rows[k - 1]));
                lemma_first_where_is(rows, p, k - 1);
            }
            return Some(
                StorageFigures {
                    total_kb: column_of(line, 1, comma.as_slice()),
                    used_kb: column_of(line, 2, comma.as_slice()),
                    free_kb: column_of(line, 3, comma.as_slice()),
                },
            );
        }
        assert(!p(rows[k - 1]));
        k += 1;
    }
    proof {
        lemma_first_where_none(rows, p);
    }
    None
}

/// The figure on a line of a memory report: the first token of the line once
/// the key is taken out of it.
pub open spec fn figure_on(line: Seq<char>, key: Seq<char>) -> Option<Seq<char>> {
    token(trim(remove_all(line, key)), 0)
}

/// The figure of the last line that starts with `key`, and nothing where no
/// line does.
pub open spec fn last_figure(lines: Seq<Seq<char>>, key: Seq<char>) -> Option<Seq<char>>
    decreases lines.len(),
{
    if lines.len() == 0 {
        None
    } else if starts_with(lines.last(), key) {
        figure_on(lines.last(), key)
    } else {
        last_figure(lines.drop_last(), key)
    }
}

/// What a memory report says, in kilobytes and as written: the total and what
/// is available.
pub struct MemoryFigures {
    pub total_kb: Option<String>,
    pub available_kb: Option<String>,
}

/// The last figure of a key in the lines, computed.
fn find_last_figure(lines: &Vec<Vec<char>>, key: &[char]) -> (figure: Option<String>)
    ensures
        string_text(figure) == last_figure(line_views(lines@), key@),
{
    let ghost all = line_views(lines@);
    let mut figure: Option<String> = None;
    let mut k: usize = 0;
    assert(all.take(0) =~= Seq::empty());
    while k < lines.len()
        invariant
            k <= lines.len(),
            all == line_views(lines@),
            string_text(figure) == last_figure(all.take(k as int), key@),
        decreases lines.len() - k,
    {
        let line = lines[k].as_slice();
        proof {
            assert(all.take(k + 1).drop_last() =~= all.take(k as int));
            assert(all.take(k + 1).last() == line@);
        }
        if starts_with_slice(line, key) {
            let bare = remove_all_slice(line, key);
            figure = match token_slice(trim_slice(bare.as_slice()), 0) {
                Some(t) => Some(from_chars(t)),
                None => None,
            };
        }
        k += 1;
    }
    assert(all.take(k as int) =~= all);
    figure
}

/// Reads a memory report: the figures of its last `MemTotal:` and
/// `MemAvailable:` lines.
pub fn parse_memory(report: &str) -> (memory: MemoryFigures)
    ensures
        string_text(memory.total_kb) == last_figure(lines_of(report@), "MemTotal:"@),
        string_text(memory.available_kb) == last_figure(
            lines_of(report@),
            "MemAvailable:"@,
        ),
{
    let chars = to_chars(report);
    let lines = split_lines(chars.as_slice());
    let total = to_chars("MemTotal:");
    let available = to_chars("MemAvailable:");
    MemoryFigures {
        total_kb: find_last_figure(&lines, total.as_slice()),
        available_kb: find_last_figure(&lines, available.as_slice()),
    }
}

} // verus!
