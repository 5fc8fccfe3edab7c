//! Reading what the debug bridge prints about devices and packages: the list
//! of connected devices, the place of a package's file on a device, and
//! whether a command reports success.

use crate::search::contains;
use crate::search::contains_slice;
use crate::search::ends_with;
use crate::search::ends_with_slice;
use crate::split::first_where;
use crate::split::gather;
use crate::split::lemma_first_where_is;
use crate::split::lemma_first_where_none;
use crate::split::line_views;
use crate::split::lines_of;
use crate::split::remove_all;
use crate::split::remove_all_slice;
use crate::split::split_lines;
use crate::split::token;
use crate::split::token_slice;
use crate::text::from_chars;
use crate::text::is_blank;
use crate::text::is_blank_slice;
use crate::text::string_views;
use crate::text::string_text;
use crate::text::to_chars;
use crate::text::trim;
use crate::text::trim_slice;
use vstd::prelude::*;

verus! {

/// Why no device can be worked with.
#[derive(Clone, Copy, PartialEq, Eq, Structural, Debug)]
pub enum DeviceError {
    /// The list of devices is empty.
    NoDevices,
}

/// The device that a line of the device list names: the first token of the
/// line, unless the line is empty or belongs to the chatter of the bridge.
pub open spec fn device_on(line: Seq<char>) -> Option<Seq<char>> {
    if line.len() == 0 || contains(line, "daemon not running"@) || contains(
        line,
        "daemon started"@,
    ) || contains(line, "List of devices attached"@) {
        None
    } else {
        token(line, 0)
    }
}

/// The devices that a device list names, in its order.
pub open spec fn devices_of(listing: Seq<char>) -> Seq<Seq<char>> {
    gather(lines_of(listing), |line: Seq<char>| device_on(line))
}

/// The serial numbers of the devices that a device list names.
pub fn parse_device_list(listing: &str) -> (devices: Vec<String>)
    ensures
        string_views(devices@) == devices_of(listing@),
{
    let chars = to_chars(listing);
    let lines = split_lines(chars.as_slice());
    let not_running = to_chars("daemon not running");
    let started = to_chars("daemon started");
    let header = to_chars("List of devices attached");
    let ghost all = line_views(lines@);
    let ghost f = |line: Seq<char>| device_on(line);
    let mut devices: Vec<String> = Vec::new();
    let mut k: usize = 0;
    assert(all.take(0) =~= Seq::empty());
    assert(string_views(devices@) =~= Seq::empty());
    while k < lines.len()
        invariant
            k <= lines.len(),
            all == line_views(lines@),
            f == (|line: Seq<char>| device_on(line)),
            not_running@ == "daemon not running"@,
            started@ == "daemon started"@,
            header@ == "List of devices attached"@,
            string_views(devices@) == gather(all.take(k as int), f),
        decreases lines.len() - k,
    {
        let line = lines[k].as_slice();
        proof {
            assert(all.take(k + 1).drop_last() =~= all.take(k as int));
            assert(all.take(k + 1).last() == line@);
        }
        if line.len() > 0 && !contains_slice(line, not_running.as_slice()) && !contains_slice(
            line,
            started.as_slice(),
        ) && !contains_slice(line, header.as_slice()) {
            match token_slice(line, 0) {
                Some(serial) => {
                    let ghost before = string_views(devices@);
                    devices.push(from_chars(serial));
                    assert(string_views(devices@) =~= before.push(serial@));
                },
                None => {},
            }
        }
        k += 1;
    }
    assert(all.take(k as int) =~= all);
    devices
}

/// The devices that a device list names, or an error where it names none.
pub fn connected_devices(listing: &str) -> (r: Result<Vec<String>, DeviceError>)
    ensures
        devices_of(listing@).len() == 0 <==> r is Err,
        r matches Ok(devices) ==> string_views(devices@) == devices_of(listing@),
        r matches Err(e) ==> e == DeviceError::NoDevices,
{
    let devices = parse_device_list(listing);
    if devices.len() == 0 {
        Err(DeviceError::NoDevices)
    } else {
        Ok(devices)
    }
}

/// A line of a package list without its `package:` marks.
pub open spec fn unmarked(line: Seq<char>) -> Seq<char> {
    remove_all(line, "package:"@)
}

/// Whether a line of a package list with file paths is the line of a package:
/// it is not empty and, without its marks and trimmed, it ends with the trimmed
/// name of the package.
pub open spec fn is_line_of(line: Seq<char>, package: Seq<char>) -> bool {
    line.len() > 0 && ends_with(trim(unmarked(line)), trim(package))
}

/// The file path on a package's line: the line without its marks and without
/// the `=` and the package's name that follow the path.
pub open spec fn path_on(line: Seq<char>, package: Seq<char>) -> Seq<char> {
    remove_all(unmarked(line), seq!['='] + package)
}

/// The file path of a package according to a package list with file paths:
/// that of the first line of the package, if there is one.
pub open spec fn apk_path_of(listing: Seq<char>, package: Seq<char>) -> Option<Seq<char>> {
    match first_where(lines_of(listing), |line: Seq<char>| is_line_of(line, package)) {
        Some(i) => Some(path_on(lines_of(listing)[i], package)),
        None => None,
    }
}

/// Finds the file path of a package in a package list with file paths.
pub fn find_apk_path(listing: &str, package: &str) -> (path: Option<String>)
    ensures
        string_text(path) == apk_path_of(listing@, package@),
{
    let chars = to_chars(listing);
    let lines = split_lines(chars.as_slice());
    let mark = to_chars("package:");
    let name = to_chars(package);
    let wanted = trim_slice(name.as_slice());
    let mut suffix: Vec<char> = Vec::new();
    suffix.push('=');
    let mut j: usize = 0;
    while j < name.len()
        invariant
            j <= name.len(),
            suffix@ == seq!['='] + name@.take(j as int),
        decreases name.len() - j,
    {
        suffix.push(name[j]);
        assert(seq!['='] + name@.take(j + 1) =~= (seq!['='] + name@.take(j as int)).push(
            name@[j as int],
        ));
        j += 1;
    }
    assert(name@.take(j as int) =~= name@);
    let ghost all = line_views(lines@);
    let ghost p = |line: Seq<char>| is_line_of(line, package@);
    let mut k: usize = 0;
    while k < lines.len()
        invariant
            k <= lines.len(),
            all == line_views(lines@),
            all == lines_of(listing@),
            p == (|line: Seq<char>| is_line_of(line, package@)),
            mark@ == "package:"@,
            name@ == package@,
            wanted@ == trim(package@),
            suffix@ == seq!['='] + package@,
            forall|i: int| 0 <= i < k ==> !p(#[trigger] all[i]),
        decreases lines.len() - k,
    {
        let line = lines[k].as_slice();
        assert(line@ == all[k as int]);
        if line.len() > 0 {
            let bare = remove_all_slice(line, mark.as_slice());
            if ends_with_slice(trim_slice(bare.as_slice()), wanted) {
                proof {
                    assert(p(all[k as int]));
                    lemma_first_where_is(all, p, k as int);
                }
                let path = remove_all_slice(bare.as_slice(), suffix.as_slice());
                return Some(from_chars(path.as_slice()));
            }
        }
        assert(!p(all[k as int]));
        k += 1;
    }
    proof {
        lemma_first_where_none(all, p);
    }
    None
}

/// Whether the output of a command reports success: it holds `Success`.
pub open spec fn reports_success(output: Seq<char>) -> bool {
    contains(output, "Success"@)
}

/// Decides `reports_success`.
pub fn output_reports_success(output: &str) -> (b: bool)
    ensures
        b == reports_success(output@),
{
    let chars = to_chars(output);
    let success = to_chars("Success");
    contains_slice(chars.as_slice(), success.as_slice())
}

/// The outcome of a command that prints `Success` when it has done its work:
/// success where the output holds that word, and else the diagnostics, trimmed,
/// as the reason of the failure.
pub fn command_outcome(output: &str, diagnostics: &str) -> (r: Result<(), String>)
    ensures
        reports_success(output@) <==> r is Ok,
        r matches Err(reason) ==> reason@ == trim(diagnostics@),
{
    if output_reports_success(output) {
        Ok(())
    } else {
        Err(trimmed(diagnostics))
    }
}

/// A text without the whitespace around it.
pub fn trimmed(text: &str) -> (r: String)
    ensures
        r@ == trim(text@),
{
    let chars = to_chars(text);
    from_chars(trim_slice(chars.as_slice()))
}

/// Whether a text holds anything but whitespace.
pub fn has_text(text: &str) -> (b: bool)
    ensures
        b == !is_blank(text@),
{
    let chars = to_chars(text);
    !is_blank_slice(chars.as_slice())
}

} // verus!
