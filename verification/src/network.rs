//! Reading what a device prints about its network: the addresses of its
//! interfaces and the name of its wireless network.

use crate::search::find;
use crate::search::find_slice;
use crate::search::starts_with;
use crate::search::starts_with_slice;
use crate::split::field;
use crate::split::field_slice;
use crate::split::first_where;
use crate::split::gather;
use crate::split::lemma_first_where_is;
use crate::split::lemma_first_where_none;
use crate::split::line_views;
use crate::split::lines_of;
use crate::split::split_lines;
use crate::split::token;
use crate::split::token_slice;
use crate::text::from_chars;
use crate::text::slices_equal;
use crate::text::string_views;
use crate::text::strip_both_slice;
use crate::text::string_text;
use crate::text::to_chars;
use crate::text::trim;
use crate::text::trim_matches;
use crate::text::trim_slice;
use crate::text::CharClass;
use vstd::prelude::*;
use vstd::slice::slice_subrange;

verus! {

/// The address that a line of an interface listing gives: the line, trimmed,
/// starts with `inet `, and the address is the token after that, without the
/// `/` and the prefix length that follow it.
pub open spec fn address_on(line: Seq<char>) -> Option<Seq<char>> {
    let t = trim(line);
    if starts_with(t, "inet "@) {
        match token(t.skip("inet "@.len() as int), 0) {
            Some(word) => field(word, '/', 0),
            None => Some(Seq::empty()),
        }
    } else {
        None
    }
}

/// The addresses of an interface listing, in its order.
pub open spec fn addresses_of(listing: Seq<char>) -> Seq<Seq<char>> {
    gather(lines_of(listing), |line: Seq<char>| address_on(line))
}

/// Whether an address can be shown as that of the device: it is not empty and
/// is not the loopback address.
pub open spec fn is_outward(address: Seq<char>) -> bool {
    address.len() > 0 && address != "127.0.0.1"@
}

/// The first address of a listing that can be shown as that of the device.
pub open spec fn primary_address_of(listing: Seq<char>) -> Option<Seq<char>> {
    match first_where(addresses_of(listing), |a: Seq<char>| is_outward(a)) {
        Some(i) => Some(addresses_of(listing)[i]),
        None => None,
    }
}

/// The addresses of an interface listing, in its order.
pub fn parse_addresses(listing: &str) -> (addresses: Vec<String>)
    ensures
        string_views(addresses@) == addresses_of(listing@),
{
    let chars = to_chars(listing);
    let lines = split_lines(chars.as_slice());
    let inet = to_chars("inet ");
    let ghost all = line_views(lines@);
    let ghost f = |line: Seq<char>| address_on(line);
    let mut addresses: Vec<String> = Vec::new();
    let mut k: usize = 0;
    assert(all.take(0) =~= Seq::empty());
    assert(string_views(addresses@) =~= Seq::empty());
    while k < lines.len()
        invariant
            k <= lines.len(),
            all == line_views(lines@),
            f == (|line: Seq<char>| address_on(line)),
            inet@ == "inet "@,
            string_views(addresses@) == gather(all.take(k as int), f),
        decreases lines.len() - k,
    {
        let line = trim_slice(lines[k].as_slice());
        proof {
            assert(all.take(k + 1).drop_last() =~= all.take(k as int));
            assert(all.take(k + 1).last() == lines[k as int]@);
        }
        if starts_with_slice(line, inet.as_slice()) {
            let rest = slice_subrange(line, inet.len(), line.len());
            let address = match token_slice(rest, 0) {
                Some(word) => match field_slice(word, '/', 0) {
                    Some(a) => from_chars(a),
                    None => String::new(),
                },
                None => String::new(),
            };
            let ghost before = string_views(addresses@);
            addresses.push(address);
            assert(string_views(addresses@) =~= before.push(address@));
        }
        k += 1;
    }
    assert(all.take(k as int) =~= all);
    addresses
}

/// The first address of an interface listing, if it has one.
pub fn first_address(listing: &str) -> (address: Option<String>)
    ensures
        match address {
            Some(a) => addresses_of(listing@).len() > 0 && a@ == addresses_of(listing@)[0],
            None => addresses_of(listing@).len() == 0,
        },
{
    let addresses = parse_addresses(listing);
    if addresses.len() > 0 {
        assert(string_views(addresses@)[0] == addresses@[0]@);
        Some(addresses[0].clone())
    } else {
        None
    }
}

/// The first address of an interface listing that is neither empty nor the
/// loopback address.
pub fn primary_address(listing: &str) -> (address: Option<String>)
    ensures
        string_text(address) == primary_address_of(listing@),
{
    let addresses = parse_addresses(listing);
    let loopback = "127.0.0.1".to_owned();
    let ghost all = string_views(addresses@);
    let ghost p = |a: Seq<char>| is_outward(a);
    let mut k: usize = 0;
    while k < addresses.len()
        invariant
            k <= addresses.len(),
            all == string_views(addresses@),
            all == addresses_of(listing@),
            p == (|a: Seq<char>| is_outward(a)),
            loopback@ == "127.0.0.1"@,
            forall|i: int| 0 <= i < k ==> !p(#[trigger] all[i]),
        decreases addresses.len() - k,
    {
        assert(all[k as int] == addresses@[k as int]@);
        let candidate = to_chars(addresses[k].as_str());
        if candidate.len() > 0 && !(addresses[k] == loopback) {
            proof {
                assert(p(all[k as int]));
                lemma_first_where_is(all, p, k as int);
            }
            return Some(addresses[k].clone());
        }
        assert(!p(all[k as int]));
        k += 1;
    }
    proof {
        lemma_first_where_none(all, p);
    }
    None
}

/// What a line says the wireless network is called, before it is examined: the
/// text after the first `SSID:` up to the next `,`, trimmed, without the double
/// quotes around it, and trimmed again.
pub open spec fn network_name_written(line: Seq<char>) -> Option<Seq<char>> {
    match find(line, "SSID:"@) {
        Some(i) => match field(trim(line.skip(i + "SSID:"@.len())), ',', 0) {
            Some(first) => Some(trim(trim_matches(trim(first), '"'))),
            None => None,
        },
        None => None,
    }
}

/// Whether a name says which network it is: it is not empty and is none of the
/// two texts that stand for an unknown network.
pub open spec fn is_known_name(name: Seq<char>) -> bool {
    name.len() > 0 && name != "<unknown ssid>"@ && name != "0x0"@
}

/// The name of the wireless network that a line gives, if it gives one.
pub open spec fn network_name_on(line: Seq<char>) -> Option<Seq<char>> {
    match network_name_written(line) {
        Some(name) => if is_known_name(name) {
            Some(name)
        } else {
            None
        },
        None => None,
    }
}

/// The name of the wireless network according to a dump of the wireless
/// service: that of the first line that gives one.
pub open spec fn network_name_of(dump: Seq<char>) -> Option<Seq<char>> {
    match first_where(lines_of(dump), |line: Seq<char>| network_name_on(line) is Some) {
        Some(i) => network_name_on(lines_of(dump)[i]),
        None => None,
    }
}

/// Finds the name of the wireless network in a dump of the wireless service.
pub fn parse_network_name(dump: &str) -> (name: Option<String>)
    ensures
        string_text(name) == network_name_of(dump@),
{
    let chars = to_chars(dump);
    let lines = split_lines(chars.as_slice());
    let marker = to_chars("SSID:");
    let unknown = to_chars("<unknown ssid>");
    let zero = to_chars("0x0");
    let ghost all = line_views(lines@);
    let ghost p = |line: Seq<char>| network_name_on(line) is Some;
    let mut k: usize = 0;
    while k < lines.len()
        invariant
            k <= lines.len(),
            all == line_views(lines@),
            all == lines_of(dump@),
            p == (|line: Seq<char>| network_name_on(line) is Some),
            marker@ == "SSID:"@,
            unknown@ == "<unknown ssid>"@,
            zero@ == "0x0"@,
            forall|i: int| 0 <= i < k ==> !p(#[trigger] all[i]),
        decreases lines.len() - k,
    {
        let line = lines[k].as_slice();
        assert(line@ == all[k as int]);
        match find_slice(line, marker.as_slice()) {
            Some(i) => {
                let after = trim_slice(slice_subrange(line, i + marker.len(), line.len()));
                match field_slice(after, ',', 0) {
                    Some(first) => {
                        let name = trim_slice(
                            strip_both_slice(trim_slice(first), CharClass::Exactly('"')),
                        );
                        if name.len() > 0 && !slices_equal(name, unknown.as_slice())
                            && !slices_equal(name, zero.as_slice()) {
                            proof {
                                assert(p(all[k as int]));
                                lemma_first_where_is(all, p, k as int);
                            }
                            return Some(from_chars(name));
                        }
                    },
                    None => {},
                }
            },
            None => {},
        }
        assert(!p(all[k as int]));
        k += 1;
    }
    proof {
        lemma_first_where_none(all, p);
    }
    None
}

} // verus!
