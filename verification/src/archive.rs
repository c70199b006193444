//! Reading a gzipped tarball with `flate2` and `tar`. The archive is walked
//! entry by entry; these trusted items make the outside calls, convert their
//! results to plain values, and name what the walk yields.

use vstd::prelude::*;
use flate2::read::GzDecoder;
use tar::{Archive, Entries, Entry};

verus! {

/// `std::io::Error`, carried through opaquely.
#[verifier::external_type_specification]
#[verifier::external_body]
pub struct ExIoError(std::io::Error);

/// A `tar::Archive` reading through a `flate2::read::GzDecoder`, held
/// opaquely; like `TarEntries` and `TarEntry`, it fixes the reader type so
/// that no `std::io::Read` bound appears in the library's signatures.
#[verifier::external_body]
pub struct TarArchive<'a> {
    archive: Archive<GzDecoder<&'a [u8]>>,
}

/// The iterator over the entries of a `TarArchive`, held opaquely.
#[verifier::external_body]
pub struct TarEntries<'a, 'b> {
    entries: Entries<'b, GzDecoder<&'a [u8]>>,
}

/// One entry of a `TarArchive`, held opaquely. It keeps the iterator that
/// yielded it borrowed, so that the iterator cannot move on while the entry's
/// data may still be read.
#[verifier::external_body]
pub struct TarEntry<'a, 'b, 'c> {
    entry: Entry<'b, GzDecoder<&'a [u8]>>,
    iter: std::marker::PhantomData<&'c mut TarEntries<'a, 'b>>,
}

/// The entries that walking a gzipped tarball with `tar::Archive::entries`
/// yields, in order, up to the end of the archive or to the first error:
/// for each, whether its type is `EntryType::Regular`, its path
/// (`Entry::path`, as text) and its data.
pub uninterp spec fn tarball_entries(tarball: Seq<u8>) -> Seq<(bool, Seq<char>, Seq<u8>)>;

/// The gzipped tarball an archive reads.
pub uninterp spec fn archive_source(archive: TarArchive) -> Seq<u8>;

/// The entries an iterator over an archive has yet to yield, up to the end
/// of the archive or to the first error.
pub uninterp spec fn pending_entries(entries: TarEntries) -> Seq<(bool, Seq<char>, Seq<u8>)>;

/// Whether an entry is a regular file, its path as text, and its data.
pub uninterp spec fn entry_item(entry: TarEntry) -> (bool, Seq<char>, Seq<u8>);

/// Whether `tar` walks a gzipped tarball to the end of the archive without
/// an error: every call of `Entries::next` returns an entry until it returns
/// `None`, each entry's data being read or left unread. Every byte that the
/// walk reaches goes through the decoder whether an entry's data is read or
/// skipped, and a failed read of the decoder fails again or leaves the rest
/// of the entry unread, so this depends on the tarball alone.
pub uninterp spec fn tarball_walks(tarball: Seq<u8>) -> bool;

/// Whether `Entry::path` succeeds on every entry `tar` yields from a gzipped
/// tarball. Under Unix path rules every path reads (`bytes2path` cannot
/// fail there); elsewhere a path that is not UTF-8 does not.
pub uninterp spec fn tarball_paths_read(tarball: Seq<u8>) -> bool;

/// Whether reading the data of every entry `tar` yields from a gzipped
/// tarball succeeds.
pub uninterp spec fn tarball_data_read(tarball: Seq<u8>) -> bool;

/// Whether `tar` reads a gzipped tarball to its end without an error: it
/// walks to the end of the archive, and the path of every entry reads.
pub open spec fn tarball_reads(tarball: Seq<u8>) -> bool {
    tarball_walks(tarball) && tarball_paths_read(tarball)
}

/// Whether a call of `Entries::next` on an iterator has returned an error
/// (after which every call returns `None`).
pub uninterp spec fn entries_failed(entries: TarEntries) -> bool;

/// Whether an archive is still at its start (`tar` reads its position 0),
/// so that `Archive::entries` may be called on it.
pub uninterp spec fn archive_fresh(archive: TarArchive) -> bool;

/// The gzipped tarball an iterator over entries walks.
pub uninterp spec fn entries_source(entries: TarEntries) -> Seq<u8>;

/// The gzipped tarball an entry was read from.
pub uninterp spec fn entry_source(entry: TarEntry) -> Seq<u8>;

/// Calls `flate2::read::GzDecoder::new` on the tarball's bytes and
/// `tar::Archive::new` on the decoder. Claimed: the archive reads those
/// bytes and is at its start (`Archive::new` sets the position to 0, and
/// only reading through the archive moves it).
#[verifier::external_body]
pub(crate) fn open_tarball<'a>(bytes: &'a [u8]) -> (r: TarArchive<'a>)
    ensures
        archive_source(r) == bytes@,
        archive_fresh(r),
{
    TarArchive { archive: Archive::new(GzDecoder::new(bytes)) }
}

/// Calls `tar::Archive::entries`. Claimed: the call fails only when the
/// archive is no longer at its start (the one error `Archive::entries`
/// returns), and an iterator it hands out walks the archive's tarball with
/// all of its entries to yield.
#[verifier::external_body]
pub(crate) fn archive_entries<'a, 'b>(archive: &'b mut TarArchive<'a>) -> (r: Result<
    TarEntries<'a, 'b>,
    std::io::Error,
>)
    ensures
        archive_fresh(*old(archive)) ==> r is Ok,
        r matches Ok(entries) ==> pending_entries(entries) == tarball_entries(
            archive_source(*old(archive)),
        ) && entries_source(entries) == archive_source(*old(archive)) && !entries_failed(entries),
{
    archive.archive.entries().map(|entries| TarEntries { entries })
}

/// Calls `Iterator::next` on the entries. Claimed: `None` comes only once
/// no entry is pending; an entry that comes is the first pending one, which
/// is then no longer pending, and comes from the tarball the iterator walks.
/// An error comes only from a tarball that `tar` does not walk to its end;
/// `None` from an iterator that has not failed means that `tar` reached the
/// end of the archive (`EntriesFields::next` returns `None` only once it is
/// done, after an error or after reading the archive's end).
#[verifier::external_body]
pub(crate) fn next_entry<'a, 'b, 'c>(entries: &'c mut TarEntries<'a, 'b>) -> (r: Option<
    Result<TarEntry<'a, 'b, 'c>, std::io::Error>,
>)
    ensures
        entries_source(*final(entries)) == entries_source(*old(entries)),
        r is None ==> pending_entries(*old(entries)).len() == 0,
        r matches Some(Ok(entry)) ==> {
            &&& pending_entries(*old(entries)).len() > 0
            &&& entry_item(entry) == pending_entries(*old(entries))[0]
            &&& pending_entries(*final(entries)) == pending_entries(*old(entries)).drop_first()
            &&& entry_source(entry) == entries_source(*old(entries))
            &&& !entries_failed(*final(entries))
        },
        r matches Some(Err(_)) ==> !tarball_walks(entries_source(*old(entries))),
        r is None && !entries_failed(*old(entries)) ==> tarball_walks(entries_source(*old(entries))),
{
    entries.entries.next().map(|r| r.map(|entry| TarEntry { entry, iter: std::marker::PhantomData }))
}

/// Calls `tar::Entry::header` and `tar::Header::entry_type`, and tells
/// whether the type is `EntryType::Regular`. Claimed: the answer is the
/// entry's own.
#[verifier::external_body]
pub(crate) fn entry_is_regular<'a, 'b, 'c>(entry: &TarEntry<'a, 'b, 'c>) -> (b: bool)
    ensures
        b == entry_item(*entry).0,
{
    entry.entry.header().entry_type() == tar::EntryType::Regular
}

/// Calls `tar::Entry::path` and turns the path into text (lossily, as
/// `Path::to_string_lossy` does). Claimed: the text is the entry's path; an
/// error comes only from a tarball with an entry whose path does not read.
#[verifier::external_body]
pub(crate) fn entry_path<'a, 'b, 'c>(entry: &TarEntry<'a, 'b, 'c>) -> (r: Result<String, std::io::Error>)
    ensures
        r matches Ok(p) ==> p@ == entry_item(*entry).1,
        r is Err ==> !tarball_paths_read(entry_source(*entry)),
{
    entry.entry.path().map(|p| p.to_string_lossy().into_owned())
}

/// Calls `std::io::Read::read_to_end` on an entry, which it consumes, so
/// that each entry is read once, from its start, before the iterator moves
/// on. Claimed: what it reads is the entry's data; an error comes only from
/// a tarball that `tar` does not walk to its end (walking reads the same
/// bytes through the decoder when it skips the data), and whose entries'
/// data do not all read.
#[verifier::external_body]
pub(crate) fn entry_read_to_end<'a, 'b, 'c>(entry: TarEntry<'a, 'b, 'c>) -> (r: Result<
    Vec<u8>,
    std::io::Error,
>)
    ensures
        r matches Ok(content) ==> content@ == entry_item(entry).2,
        r is Err ==> !tarball_walks(entry_source(entry)) && !tarball_data_read(entry_source(entry)),
{
    let mut entry = entry;
    let mut content = Vec::new();
    std::io::Read::read_to_end(&mut entry.entry, &mut content).map(|_| content)
}

/// The components of a path, as `Path::components` yields them, each turned
/// into text. The components follow the path rules of the platform the
/// library is built for (on Unix, `/` separates them).
pub uninterp spec fn path_components_of(path: Seq<char>) -> Seq<Seq<char>>;

/// Calls `Path::components` on the path and turns each component into text.
/// Claimed: the result is `path_components_of` of the path.
#[verifier::external_body]
pub(crate) fn path_components(path: &str) -> (r: Vec<String>)
    ensures
        r@.map_values(|c: String| c@) == path_components_of(path@),
{
    std::path::Path::new(path).components().map(|c| c.as_os_str().to_string_lossy().into_owned()).collect()
}

/// Calls the `Display` of an I/O error. Nothing is claimed of the text.
#[verifier::external_body]
pub(crate) fn io_error_text(e: &std::io::Error) -> String {
    e.to_string()
}

} // verus!
