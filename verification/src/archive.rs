//! Looking into an APK container without unpacking it.
//!
//! An APK is a ZIP archive. Its table of entries alone says whether it has a
//! manifest and how many code files, assets and resources it holds. This
//! summary is what remains to be said of an application when no badging dump
//! can be had: facts of structure, and nothing of identity.

use crate::search::ends_with;
use crate::search::ends_with_slice;
use crate::search::starts_with;
use crate::search::starts_with_slice;
use crate::text::string_views;
use crate::text::to_chars;
use vstd::prelude::*;

verus! {

/// A ZIP archive opened by the `zip` crate. Nothing of its inside is visible
/// here but through `entry_names`.
#[verifier::external_type_specification]
#[verifier::external_body]
#[verifier::reject_recursive_types(R)]
pub struct ExZipArchive<R>(zip::ZipArchive<R>);

/// A reader over bytes in memory.
#[verifier::external_type_specification]
#[verifier::external_body]
#[verifier::reject_recursive_types(T)]
pub struct ExCursor<T>(std::io::Cursor<T>);

/// The error of the `zip` crate.
#[verifier::external_type_specification]
#[verifier::external_body]
pub struct ExZipError(zip::result::ZipError);

/// The names of the entries of an opened archive, in the order of its central
/// directory; an entry whose name cannot be decoded has an unknown name here.
pub uninterp spec fn entry_names(archive: zip::ZipArchive<std::io::Cursor<Vec<u8>>>) -> Seq<
    Seq<char>,
>;

/// The bytes that an opened archive reads from: those of the file it was
/// opened on.
pub uninterp spec fn archive_bytes(archive: zip::ZipArchive<std::io::Cursor<Vec<u8>>>) -> Seq<u8>;

/// What the `zip` crate makes of a file's bytes: `None` where it cannot read
/// them as an archive, and else the names of the entries.
pub uninterp spec fn directory_of(bytes: Seq<u8>) -> Option<Seq<Seq<char>>>;

/// Whether the `zip` crate can look up the entry with the given number in an
/// archive with the given bytes, and decode its name. It cannot where the
/// entry's local header is damaged, where the entry is encrypted or packed in
/// a way that is not supported, or where the name is in no known encoding.
pub uninterp spec fn entry_readable(bytes: Seq<u8>, index: int) -> bool;

/// Calls `zip::ZipArchive::new` on the bytes of a file. The call reads the
/// central directory and fails where there is none that it accepts. The
/// contract only names the outcome: an archive over these bytes whose entry
/// names are those of `directory_of`, or an error where `directory_of` is
/// `None`.
#[verifier::external_body]
fn open_archive(bytes: Vec<u8>) -> (r: Result<
    zip::ZipArchive<std::io::Cursor<Vec<u8>>>,
    zip::result::ZipError,
>)
    ensures
        match r {
            Ok(archive) => directory_of(bytes@) == Some(entry_names(archive)) && archive_bytes(
                archive,
            ) == bytes@,
            Err(_) => directory_of(bytes@) is None,
        },
{
    zip::ZipArchive::new(std::io::Cursor::new(bytes))
}

/// Calls `zip::ZipArchive::len`: the number of entries in the central
/// directory.
#[verifier::external_body]
fn archive_len(archive: &zip::ZipArchive<std::io::Cursor<Vec<u8>>>) -> (n: usize)
    ensures
        n == entry_names(*archive).len(),
{
    archive.len()
}

/// Calls `zip::ZipArchive::by_index` and, on the entry it returns,
/// `ZipFile::name`. The first looks the entry up, reads its local header and
/// sets up a reader for it; it fails for an index past the end, for a header it
/// cannot read and for an entry that is encrypted or packed in a way that is
/// not supported. The second decodes the name. Neither the table of entries
/// nor the bytes are changed. Both calls depend on the bytes and the number
/// alone, so whether they succeed is given the name `entry_readable`; the
/// contract does not say for which bytes they do.
#[verifier::external_body]
fn entry_name(archive: &mut zip::ZipArchive<std::io::Cursor<Vec<u8>>>, index: usize) -> (r: Result<
    String,
    zip::result::ZipError,
>)
    ensures
        entry_names(*final(archive)) == entry_names(*old(archive)),
        archive_bytes(*final(archive)) == archive_bytes(*old(archive)),
        match r {
            Ok(name) => index < entry_names(*old(archive)).len() && name@ == entry_names(
                *old(archive),
            )[index as int] && entry_readable(archive_bytes(*old(archive)), index as int),
            Err(_) => index >= entry_names(*old(archive)).len() || !entry_readable(
                archive_bytes(*old(archive)),
                index as int,
            ),
        },
{
    let file = archive.by_index(index)?;
    let name = file.name()?;
    Ok(name.into_owned())
}

/// The message of an error of the `zip` crate, as its `Display` writes it.
/// Nothing is claimed of the text.
#[verifier::external_body]
fn error_message(error: &zip::result::ZipError) -> (message: String) {
    error.to_string()
}

/// Why a container could not be summarized.
pub enum ArchiveError {
    /// The bytes cannot be opened as a ZIP archive.
    NotAnArchive { reason: String },
    /// The archive was opened, and the entry at `index` could not be read.
    UnreadableEntry { index: usize, reason: String },
}

/// The facts of structure of one APK container.
pub struct ArchiveSummary {
    pub has_manifest: bool,
    pub dex_count: usize,
    pub asset_count: usize,
    pub resource_count: usize,
    pub total_entries: usize,
    pub size_bytes: u64,
}

/// The mathematical content of an `ArchiveSummary`.
pub struct SummaryFacts {
    pub has_manifest: bool,
    pub dex_count: nat,
    pub asset_count: nat,
    pub resource_count: nat,
    pub total_entries: nat,
    pub size_bytes: nat,
}

impl View for ArchiveSummary {
    type V = SummaryFacts;

    open spec fn view(&self) -> SummaryFacts {
        SummaryFacts {
            has_manifest: self.has_manifest,
            dex_count: self.dex_count as nat,
            asset_count: self.asset_count as nat,
            resource_count: self.resource_count as nat,
            total_entries: self.total_entries as nat,
            size_bytes: self.size_bytes as nat,
        }
    }
}

/// Whether an entry is the manifest: its name is exactly `AndroidManifest.xml`.
pub open spec fn is_manifest(name: Seq<char>) -> bool {
    name == "AndroidManifest.xml"@
}

/// Whether an entry is a code file: its name has the form `classes*.dex`.
pub open spec fn is_dex(name: Seq<char>) -> bool {
    starts_with(name, "classes"@) && ends_with(name, ".dex"@)
}

/// Whether an entry is an asset: its name starts with `assets/`.
pub open spec fn is_asset(name: Seq<char>) -> bool {
    starts_with(name, "assets/"@)
}

/// Whether an entry is a resource: its name starts with `res/`.
pub open spec fn is_resource(name: Seq<char>) -> bool {
    starts_with(name, "res/"@)
}

/// The number of items for which `p` holds.
pub open spec fn count_where<T>(items: Seq<T>, p: spec_fn(T) -> bool) -> nat
    decreases items.len(),
{
    if items.len() == 0 {
        0
    } else {
        count_where(items.drop_last(), p) + if p(items.last()) {
            1nat
        } else {
            0nat
        }
    }
}

/// The summary of a container with the given entry names and size.
pub open spec fn summary_of(names: Seq<Seq<char>>, size_bytes: nat) -> SummaryFacts {
    SummaryFacts {
        has_manifest: exists|i: int| 0 <= i < names.len() && is_manifest(#[trigger] names[i]),
        dex_count: count_where(names, |name: Seq<char>| is_dex(name)),
        asset_count: count_where(names, |name: Seq<char>| is_asset(name)),
        resource_count: count_where(names, |name: Seq<char>| is_resource(name)),
        total_entries: names.len(),
        size_bytes,
    }
}

/// No entry is counted in two of the three counts, and the manifest in none:
/// the counts together do not exceed the number of entries.
pub proof fn lemma_kinds_exclude_each_other(name: Seq<char>)
    ensures
        !(is_dex(name) && is_asset(name)),
        !(is_dex(name) && is_resource(name)),
        !(is_asset(name) && is_resource(name)),
        is_manifest(name) ==> !is_dex(name) && !is_asset(name) && !is_resource(name),
{
    reveal_strlit("AndroidManifest.xml");
    reveal_strlit("classes");
    reveal_strlit(".dex");
    reveal_strlit("assets/");
    reveal_strlit("res/");
    if starts_with(name, "classes"@) {
        assert(name.subrange(0, 7)[0] == 'c');
    }
    if starts_with(name, "assets/"@) {
        assert(name.subrange(0, 7)[0] == 'a');
    }
    if starts_with(name, "res/"@) {
        assert(name.subrange(0, 4)[0] == 'r');
    }
}

/// The three counts of a summary, and the manifest where there is one, are
/// counts of different entries: together they do not exceed the number of
/// entries.
pub proof fn lemma_counts_fit(names: Seq<Seq<char>>, size_bytes: nat)
    ensures
        summary_of(names, size_bytes).dex_count + summary_of(names, size_bytes).asset_count
            + summary_of(names, size_bytes).resource_count + (if summary_of(
            names,
            size_bytes,
        ).has_manifest {
            1nat
        } else {
            0nat
        }) <= summary_of(names, size_bytes).total_entries,
    decreases names.len(),
{
    if names.len() > 0 {
        let front = names.drop_last();
        lemma_counts_fit(front, size_bytes);
        lemma_kinds_exclude_each_other(names.last());
        if summary_of(names, size_bytes).has_manifest && !summary_of(front, size_bytes).has_manifest {
            let i = choose|i: int| 0 <= i < names.len() && is_manifest(#[trigger] names[i]);
            if i < front.len() {
                assert(is_manifest(front[i]));
            }
        }
    }
}

/// Summarizes a container from the names of its entries and its size in bytes.
pub fn summarize_entries(names: &Vec<String>, size_bytes: u64) -> (summary: ArchiveSummary)
    ensures
        summary@ == summary_of(string_views(names@), size_bytes as nat),
{
    let manifest = to_chars("AndroidManifest.xml");
    let classes = to_chars("classes");
    let dex = to_chars(".dex");
    let assets = to_chars("assets/");
    let res = to_chars("res/");
    let ghost all = string_views(names@);
    let ghost p_dex = |name: Seq<char>| is_dex(name);
    let ghost p_asset = |name: Seq<char>| is_asset(name);
    let ghost p_res = |name: Seq<char>| is_resource(name);
    let mut has_manifest = false;
    let mut dex_count: usize = 0;
    let mut asset_count: usize = 0;
    let mut resource_count: usize = 0;
    let mut i: usize = 0;
    assert(all.take(0) =~= Seq::empty());
    while i < names.len()
        invariant
            i <= names.len(),
            all == string_views(names@),
            manifest@ == "AndroidManifest.xml"@,
            classes@ == "classes"@,
            dex@ == ".dex"@,
            assets@ == "assets/"@,
            res@ == "res/"@,
            p_dex == (|name: Seq<char>| is_dex(name)),
            p_asset == (|name: Seq<char>| is_asset(name)),
            p_res == (|name: Seq<char>| is_resource(name)),
            has_manifest == (exists|j: int| 0 <= j < i && is_manifest(#[trigger] all[j])),
            dex_count == count_where(all.take(i as int), p_dex),
            asset_count == count_where(all.take(i as int), p_asset),
            resource_count == count_where(all.take(i as int), p_res),
            dex_count <= i,
            asset_count <= i,
            resource_count <= i,
        decreases names.len() - i,
    {
        let name = to_chars(names[i].as_str());
        proof {
            assert(name@ == all[i as int]);
            assert(all.take(i + 1).drop_last() =~= all.take(i as int));
            assert(all.take(i + 1).last() == all[i as int]);
        }
        if crate::text::slices_equal(name.as_slice(), manifest.as_slice()) {
            has_manifest = true;
        }
        if starts_with_slice(name.as_slice(), classes.as_slice()) && ends_with_slice(
            name.as_slice(),
            dex.as_slice(),
        ) {
            dex_count += 1;
        }
        if starts_with_slice(name.as_slice(), assets.as_slice()) {
            asset_count += 1;
        }
        if starts_with_slice(name.as_slice(), res.as_slice()) {
            resource_count += 1;
        }
        i += 1;
    }
    assert(all.take(i as int) =~= all);
    ArchiveSummary {
        has_manifest,
        dex_count,
        asset_count,
        resource_count,
        total_entries: names.len(),
        size_bytes,
    }
}

/// The names of all entries of an opened archive, in order, or the first entry
/// that cannot be read.
fn read_entry_names(archive: &mut zip::ZipArchive<std::io::Cursor<Vec<u8>>>) -> (r: Result<
    Vec<String>,
    ArchiveError,
>)
    ensures
        entry_names(*final(archive)) == entry_names(*old(archive)),
        archive_bytes(*final(archive)) == archive_bytes(*old(archive)),
        match r {
            Ok(names) => string_views(names@) == entry_names(*old(archive)) && forall|i: int|
                0 <= i < entry_names(*old(archive)).len() ==> entry_readable(
                    archive_bytes(*old(archive)),
                    i,
                ),
            Err(ArchiveError::UnreadableEntry { index, .. }) => index < entry_names(
                *old(archive),
            ).len() && !entry_readable(archive_bytes(*old(archive)), index as int)
                && forall|j: int|
                0 <= j < index ==> entry_readable(archive_bytes(*old(archive)), j),
            Err(ArchiveError::NotAnArchive { .. }) => false,
        },
{
    let n = archive_len(archive);
    let mut names: Vec<String> = Vec::new();
    let mut i: usize = 0;
    while i < n
        invariant
            i <= n,
            n == entry_names(*archive).len(),
            entry_names(*archive) == entry_names(*old(archive)),
            archive_bytes(*archive) == archive_bytes(*old(archive)),
            forall|j: int| 0 <= j < i ==> entry_readable(archive_bytes(*old(archive)), j),
            string_views(names@) == entry_names(*archive).take(i as int),
        decreases n - i,
    {
        match entry_name(archive, i) {
            Ok(name) => {
                let ghost before = string_views(names@);
                names.push(name);
                assert(string_views(names@) =~= before.push(name@));
                assert(entry_names(*archive).take(i + 1) =~= before.push(name@));
            },
            Err(error) => {
                return Err(
                    ArchiveError::UnreadableEntry { index: i, reason: error_message(&error) },
                );
            },
        }
        i += 1;
    }
    assert(entry_names(*archive).take(i as int) =~= entry_names(*archive));
    Ok(names)
}

/// Summarizes an APK container from the bytes of its file. The entries are
/// looked up one by one and none is unpacked. Bytes that are no ZIP archive are
/// an error; so is an entry that cannot be looked up, and the first such entry
/// is the one reported. Every other archive gets its summary.
pub fn summarize_apk(bytes: Vec<u8>) -> (r: Result<ArchiveSummary, ArchiveError>)
    ensures
        match directory_of(bytes@) {
            None => r matches Err(ArchiveError::NotAnArchive { .. }),
            Some(names) => match r {
                Ok(summary) => summary@ == summary_of(names, bytes@.len()) && forall|i: int|
                    0 <= i < names.len() ==> entry_readable(bytes@, i),
                Err(ArchiveError::UnreadableEntry { index, .. }) => index < names.len()
                    && !entry_readable(bytes@, index as int) && forall|j: int|
                    0 <= j < index ==> entry_readable(bytes@, j),
                Err(ArchiveError::NotAnArchive { .. }) => false,
            },
        },
{
    let size = bytes.len();
    match open_archive(bytes) {
        Ok(archive) => {
            let mut archive = archive;
            match read_entry_names(&mut archive) {
                Ok(names) => Ok(summarize_entries(&names, size as u64)),
                Err(e) => Err(e),
            }
        },
        Err(error) => Err(ArchiveError::NotAnArchive { reason: error_message(&error) }),
    }
}

} // verus!
