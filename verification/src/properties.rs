//! Reading a dump of device properties.
//!
//! A line of the form `[key]: [value]` gives a property. Of all properties only
//! those on a fixed list are kept, and they are shown in the order of that
//! list, not in the order of the dump.

use crate::search::find;
use crate::search::find_slice;
use crate::split::line_views;
use crate::split::lines_of;
use crate::split::split_lines;
use crate::text::from_chars;
use crate::text::slices_equal;
use crate::text::strip_prefix_of;
use crate::text::strip_prefix_slice;
use crate::text::strip_suffix_of;
use crate::text::strip_suffix_slice;
use crate::text::to_chars;
use crate::text::CharClass;
use vstd::prelude::*;
use vstd::slice::slice_subrange;

verus! {

/// The keys that are kept, in the order in which they are shown.
pub open spec fn allowed_keys() -> Seq<Seq<char>> {
    seq![
        "ro.product.model"@,
        "ro.product.manufacturer"@,
        "ro.product.brand"@,
        "ro.product.device"@,
        "ro.product.name"@,
        "ro.build.version.release"@,
        "ro.build.version.sdk"@,
        "ro.build.version.codename"@,
        "ro.product.board"@,
        "ro.product.cpu.abi"@,
        "ro.product.locale"@,
        "ro.build.id"@,
        "ro.build.version.security_patch"@,
    ]
}

/// The name under which each kept key is shown, in the same order.
pub open spec fn labels() -> Seq<Seq<char>> {
    seq![
        "Model"@,
        "Manufacturer"@,
        "Brand"@,
        "Device"@,
        "Name"@,
        "Android Version"@,
        "SDK"@,
        "Codename"@,
        "Board"@,
        "CPU ABI"@,
        "Locale"@,
        "Build ID"@,
        "Security Patch"@,
    ]
}

/// Whether a key is on the list.
pub open spec fn is_allowed(key: Seq<char>) -> bool {
    allowed_keys().contains(key)
}

/// The place of a key on the list.
pub open spec fn slot_of(key: Seq<char>) -> int {
    choose|i: int| 0 <= i < allowed_keys().len() && allowed_keys()[i] == key
}

/// No key stands twice on the list.
pub proof fn lemma_allowed_keys_differ()
    ensures
        allowed_keys().len() == 13,
        labels().len() == 13,
        allowed_keys().no_duplicates(),
        forall|i: int| 0 <= i < 13 ==> slot_of(#[trigger] allowed_keys()[i]) == i,
{
    reveal_strlit("ro.product.model");
    reveal_strlit("ro.product.manufacturer");
    reveal_strlit("ro.product.brand");
    reveal_strlit("ro.product.device");
    reveal_strlit("ro.product.name");
    reveal_strlit("ro.build.version.release");
    reveal_strlit("ro.build.version.sdk");
    reveal_strlit("ro.build.version.codename");
    reveal_strlit("ro.product.board");
    reveal_strlit("ro.product.cpu.abi");
    reveal_strlit("ro.product.locale");
    reveal_strlit("ro.build.id");
    reveal_strlit("ro.build.version.security_patch");
    let keys = allowed_keys();
    assert(keys[0].len() == 16 && keys[0][11] == 'm' && keys[0][12] == 'o');
    assert(keys[1].len() == 23);
    assert(keys[2].len() == 16 && keys[2][11] == 'b' && keys[2][12] == 'r');
    assert(keys[3].len() == 17 && keys[3][11] == 'd');
    assert(keys[4].len() == 15);
    assert(keys[5].len() == 24);
    assert(keys[6].len() == 20);
    assert(keys[7].len() == 25);
    assert(keys[8].len() == 16 && keys[8][11] == 'b' && keys[8][12] == 'o');
    assert(keys[9].len() == 18);
    assert(keys[10].len() == 17 && keys[10][11] == 'l');
    assert(keys[11].len() == 11);
    assert(keys[12].len() == 31);
    assert forall|i: int, j: int| 0 <= i < 13 && 0 <= j < 13 && i != j implies keys[i]
        != keys[j] by {
        if keys[i] == keys[j] {
            assert(keys[i].len() == keys[j].len());
            assert(keys[i][11] == keys[j][11]);
            assert(keys[i][12] == keys[j][12]);
        }
    }
}

/// The property that a line gives, as a key and a value: the line holds
/// `]: [`; the key is what stands before its first occurrence, without the `[`s
/// in front, and the value is what stands after it, without the `]`s at the end.
pub open spec fn property_on(line: Seq<char>) -> Option<(Seq<char>, Seq<char>)> {
    match find(line, "]: ["@) {
        Some(i) => Some(
            (
                strip_prefix_of(line.take(i), CharClass::Exactly('[')),
                strip_suffix_of(line.skip(i + "]: ["@.len()), CharClass::Exactly(']')),
            ),
        ),
        None => None,
    }
}

/// The kept properties after one more line.
pub open spec fn after_line(map: Map<Seq<char>, Seq<char>>, line: Seq<char>) -> Map<
    Seq<char>,
    Seq<char>,
> {
    match property_on(line) {
        Some((key, value)) => if is_allowed(key) {
            map.insert(key, value)
        } else {
            map
        },
        None => map,
    }
}

/// The kept properties after the given lines, read in order: a later line
/// replaces the value that an earlier one gave to its key.
pub open spec fn after_lines(lines: Seq<Seq<char>>) -> Map<Seq<char>, Seq<char>>
    decreases lines.len(),
{
    if lines.len() == 0 {
        Map::empty()
    } else {
        after_line(after_lines(lines.drop_last()), lines.last())
    }
}

/// The kept properties of a dump.
pub open spec fn properties_of(dump: Seq<char>) -> Map<Seq<char>, Seq<char>> {
    after_lines(lines_of(dump))
}

/// Only keys of the list are kept.
pub proof fn lemma_only_allowed_keys(lines: Seq<Seq<char>>)
    ensures
        forall|key: Seq<char>| after_lines(lines).dom().contains(key) ==> is_allowed(key),
        after_lines(lines).dom().finite(),
    decreases lines.len(),
{
    if lines.len() > 0 {
        lemma_only_allowed_keys(lines.drop_last());
    }
}

/// A dump none of whose lines gives a key of the list leaves nothing: the
/// result is the empty map.
pub proof fn lemma_no_allowed_key_no_property(lines: Seq<Seq<char>>)
    requires
        forall|i: int|
            0 <= i < lines.len() ==> (#[trigger] property_on(lines[i]) matches Some(p)
                ==> !is_allowed(p.0)),
    ensures
        after_lines(lines) == Map::<Seq<char>, Seq<char>>::empty(),
    decreases lines.len(),
{
    if lines.len() > 0 {
        let front = lines.drop_last();
        assert forall|i: int| 0 <= i < front.len() implies (#[trigger] property_on(
            front[i],
        ) matches Some(p) ==> !is_allowed(p.0)) by {
            assert(front[i] == lines[i]);
        }
        lemma_no_allowed_key_no_property(front);
        assert(property_on(lines[lines.len() - 1]) matches Some(p) ==> !is_allowed(p.0));
    }
}

/// A kept property as it is shown: its key, the name of the key and its value.
pub struct PropertyEntry {
    pub key: String,
    pub label: String,
    pub value: String,
}

/// The mathematical content of a `PropertyEntry`.
pub struct ShownProperty {
    pub key: Seq<char>,
    pub label: Seq<char>,
    pub value: Seq<char>,
}

impl View for PropertyEntry {
    type V = ShownProperty;

    open spec fn view(&self) -> ShownProperty {
        ShownProperty { key: self.key@, label: self.label@, value: self.value@ }
    }
}

/// The shown properties that a vector of entries holds.
pub open spec fn entry_views(entries: Seq<PropertyEntry>) -> Seq<ShownProperty> {
    entries.map_values(|e: PropertyEntry| e@)
}

/// The properties of `map` whose keys are among the first `n` of the list, in
/// the order of the list.
pub open spec fn listing_upto(map: Map<Seq<char>, Seq<char>>, n: int) -> Seq<ShownProperty>
    decreases n,
{
    if n <= 0 {
        Seq::empty()
    } else {
        let before = listing_upto(map, n - 1);
        let key = allowed_keys()[n - 1];
        if map.dom().contains(key) {
            before.push(ShownProperty { key, label: labels()[n - 1], value: map[key] })
        } else {
            before
        }
    }
}

/// The properties of `map` as they are shown: in the order of the list, and
/// only the keys that have a value.
pub open spec fn listing(map: Map<Seq<char>, Seq<char>>) -> Seq<ShownProperty> {
    listing_upto(map, allowed_keys().len() as int)
}

/// The key at a place of the list.
pub fn key_at(i: usize) -> (key: &'static str)
    requires
        i < 13,
    ensures
        key@ == allowed_keys()[i as int],
{
    if i == 0 {
        "ro.product.model"
    } else if i == 1 {
        "ro.product.manufacturer"
    } else if i == 2 {
        "ro.product.brand"
    } else if i == 3 {
        "ro.product.device"
    } else if i == 4 {
        "ro.product.name"
    } else if i == 5 {
        "ro.build.version.release"
    } else if i == 6 {
        "ro.build.version.sdk"
    } else if i == 7 {
        "ro.build.version.codename"
    } else if i == 8 {
        "ro.product.board"
    } else if i == 9 {
        "ro.product.cpu.abi"
    } else if i == 10 {
        "ro.product.locale"
    } else if i == 11 {
        "ro.build.id"
    } else {
        "ro.build.version.security_patch"
    }
}

/// The name under which the key at a place of the list is shown.
pub fn label_at(i: usize) -> (label: &'static str)
    requires
        i < 13,
    ensures
        label@ == labels()[i as int],
{
    if i == 0 {
        "Model"
    } else if i == 1 {
        "Manufacturer"
    } else if i == 2 {
        "Brand"
    } else if i == 3 {
        "Device"
    } else if i == 4 {
        "Name"
    } else if i == 5 {
        "Android Version"
    } else if i == 6 {
        "SDK"
    } else if i == 7 {
        "Codename"
    } else if i == 8 {
        "Board"
    } else if i == 9 {
        "CPU ABI"
    } else if i == 10 {
        "Locale"
    } else if i == 11 {
        "Build ID"
    } else {
        "Security Patch"
    }
}

/// The place of a key on the list, if it is there.
pub fn find_slot(key: &[char]) -> (slot: Option<usize>)
    ensures
        match slot {
            Some(i) => i < 13 && allowed_keys()[i as int] == key@ && slot_of(key@) == i,
            None => !is_allowed(key@),
        },
{
    proof {
        lemma_allowed_keys_differ();
    }
    let mut i: usize = 0;
    while i < 13
        invariant
            i <= 13,
            allowed_keys().len() == 13,
            forall|j: int| 0 <= j < 13 ==> slot_of(#[trigger] allowed_keys()[j]) == j,
            forall|j: int| 0 <= j < i ==> allowed_keys()[j] != key@,
        decreases 13 - i,
    {
        let candidate = to_chars(key_at(i));
        if slices_equal(candidate.as_slice(), key) {
            assert(slot_of(allowed_keys()[i as int]) == i);
            return Some(i);
        }
        i += 1;
    }
    None
}

/// The properties of a device that are kept: a mapping from keys of the list to
/// values. The vector has one place for each key of the list, in order.
pub struct PropertyMap {
    pub values: Vec<Option<String>>,
}

impl View for PropertyMap {
    type V = Map<Seq<char>, Seq<char>>;

    open spec fn view(&self) -> Map<Seq<char>, Seq<char>> {
        Map::new(
            |key: Seq<char>| is_allowed(key) && self.values@[slot_of(key)] is Some,
            |key: Seq<char>| self.values@[slot_of(key)]->0@,
        )
    }
}

impl PropertyMap {
    /// There is one place for each key of the list.
    pub open spec fn wf(&self) -> bool {
        self.values@.len() == allowed_keys().len()
    }

    /// The map without any property.
    pub fn new() -> (map: PropertyMap)
        ensures
            map.wf(),
            map@ == Map::<Seq<char>, Seq<char>>::empty(),
    {
        proof {
            lemma_allowed_keys_differ();
        }
        let mut values: Vec<Option<String>> = Vec::new();
        let mut i: usize = 0;
        while i < 13
            invariant
                i <= 13,
                values@.len() == i,
                forall|j: int| 0 <= j < i ==> values@[j] is None,
            decreases 13 - i,
        {
            values.push(None);
            i += 1;
        }
        let map = PropertyMap { values };
        assert(map@ =~= Map::<Seq<char>, Seq<char>>::empty()) by {
            assert forall|key: Seq<char>| !map@.dom().contains(key) by {
                if is_allowed(key) {
                    let j = slot_of(key);
                    assert(0 <= j < 13);
                }
            }
        }
        map
    }

    /// Gives `key` the value `value` if `key` is on the list, and does nothing
    /// otherwise.
    pub fn set(&mut self, key: &[char], value: &[char])
        requires
            old(self).wf(),
        ensures
            final(self).wf(),
            final(self)@ == (if is_allowed(key@) {
                old(self)@.insert(key@, value@)
            } else {
                old(self)@
            }),
    {
        proof {
            lemma_allowed_keys_differ();
        }
        match find_slot(key) {
            Some(i) => {
                self.values[i] = Some(from_chars(value));
                assert(final(self)@ =~= old(self)@.insert(key@, value@)) by {
                    assert forall|other: Seq<char>| is_allowed(other) && other != key@ implies slot_of(
                        other,
                    ) != i by {
                        let j = slot_of(other);
                        assert(0 <= j < 13 && allowed_keys()[j] == other);
                    }
                }
            },
            None => {},
        }
    }

    /// The value of a key, if the map has one for it. The key is compared
    /// exactly, character for character.
    pub fn get(&self, key: &str) -> (value: Option<&String>)
        requires
            self.wf(),
        ensures
            match value {
                Some(v) => self@.dom().contains(key@) && self@[key@] == v@,
                None => !self@.dom().contains(key@),
            },
    {
        let chars = to_chars(key);
        match find_slot(chars.as_slice()) {
            Some(i) => match &self.values[i] {
                Some(v) => Some(v),
                None => None,
            },
            None => None,
        }
    }

    /// The kept properties as they are shown: in the order of the list, not of
    /// the dump, each with the name of its key, and only the keys that have a
    /// value.
    pub fn entries(&self) -> (entries: Vec<PropertyEntry>)
        requires
            self.wf(),
        ensures
            entry_views(entries@) == listing(self@),
    {
        proof {
            lemma_allowed_keys_differ();
        }
        let mut entries: Vec<PropertyEntry> = Vec::new();
        let mut i: usize = 0;
        assert(entry_views(entries@) =~= listing_upto(self@, 0));
        while i < 13
            invariant
                i <= 13,
                self.wf(),
                allowed_keys().len() == 13,
                forall|j: int| 0 <= j < 13 ==> slot_of(#[trigger] allowed_keys()[j]) == j,
                entry_views(entries@) == listing_upto(self@, i as int),
            decreases 13 - i,
        {
            let ghost key = allowed_keys()[i as int];
            assert(is_allowed(key));
            assert(slot_of(key) == i);
            match &self.values[i] {
                Some(v) => {
                    let entry = PropertyEntry {
                        key: key_at(i).to_owned(),
                        label: label_at(i).to_owned(),
                        value: v.clone(),
                    };
                    let ghost before = entry_views(entries@);
                    entries.push(entry);
                    assert(entry_views(entries@) =~= before.push(entry@));
                },
                None => {},
            }
            i += 1;
        }
        entries
    }
}

/// Reads a dump of device properties and keeps the properties whose keys are on
/// the list. Lines that do not have the form of a property are passed over.
pub fn parse_properties(dump: &str) -> (map: PropertyMap)
    ensures
        map.wf(),
        map@ == properties_of(dump@),
        forall|key: Seq<char>| map@.dom().contains(key) ==> is_allowed(key),
        (forall|i: int|
            0 <= i < lines_of(dump@).len() ==> (#[trigger] property_on(
                lines_of(dump@)[i],
            ) matches Some(p) ==> !is_allowed(p.0))) ==> map@ == Map::<Seq<char>, Seq<char>>::empty(),
{
    proof {
        lemma_only_allowed_keys(lines_of(dump@));
        if forall|i: int|
            0 <= i < lines_of(dump@).len() ==> (#[trigger] property_on(
                lines_of(dump@)[i],
            ) matches Some(p) ==> !is_allowed(p.0)) {
            lemma_no_allowed_key_no_property(lines_of(dump@));
        }
    }
    let chars = to_chars(dump);
    let lines = split_lines(chars.as_slice());
    let delimiter = to_chars("]: [");
    let mut map = PropertyMap::new();
    let mut k: usize = 0;
    assert(line_views(lines@).take(0) =~= Seq::empty());
    while k < lines.len()
        invariant
            k <= lines.len(),
            map.wf(),
            delimiter@ == "]: ["@,
            map@ == after_lines(line_views(lines@).take(k as int)),
        decreases lines.len() - k,
    {
        let line = lines[k].as_slice();
        proof {
            let all = line_views(lines@);
            assert(all.take(k + 1).drop_last() =~= all.take(k as int));
            assert(all.take(k + 1).last() == lines[k as int]@);
        }
        match find_slice(line, delimiter.as_slice()) {
            Some(i) => {
                let key = strip_prefix_slice(slice_subrange(line, 0, i), CharClass::Exactly('['));
                let value = strip_suffix_slice(
                    slice_subrange(line, i + delimiter.len(), line.len()),
                    CharClass::Exactly(']'),
                );
                map.set(key, value);
            },
            None => {},
        }
        k += 1;
    }
    assert(line_views(lines@).take(k as int) =~= line_views(lines@));
    map
}

} // verus!
