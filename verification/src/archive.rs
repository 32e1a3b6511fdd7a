//! The compressed payload archive of a package.
//!
//! The payload is a gzip-compressed tar stream holding the bytes of every
//! added or changed file, keyed by relative path. Building and unpacking go
//! through the `tar` and `flate2` crates; the contracts here say, over the
//! named entry list, what those crates do: entries come back out of a built
//! archive in order, with their paths and contents intact. The builder
//! writes into memory, so each call's outcome is a function of the entries
//! appended so far and of the call's own arguments; those outcomes carry
//! names, which lets callers promise success whenever the engine accepts
//! every entry.

use std::io::Read;

use vstd::prelude::*;

use crate::state::path_normal;

verus! {

/// An archive being built in memory: a `tar` builder writing through a
/// gzip encoder into a byte vector. The value is opaque to verification;
/// `archive_entries` names what it holds.
#[verifier::external_body]
pub struct ArchiveBuilder {
    inner: tar::Builder<flate2::write::GzEncoder<Vec<u8>>>,
}

/// The entries appended to a builder so far, in order, as path and content.
pub uninterp spec fn archive_entries(b: ArchiveBuilder) -> Seq<(Seq<char>, Seq<u8>)>;

/// Whether appending `(path, data)` to a builder holding `entries` succeeds.
/// The builder writes into memory, so the outcome depends on these values
/// alone.
pub uninterp spec fn append_ok(
    entries: Seq<(Seq<char>, Seq<u8>)>,
    path: Seq<char>,
    data: Seq<u8>,
) -> bool;

/// What finishing a builder holding `entries` returns: the bytes of the
/// gzip-compressed tar stream, or nothing if the engine fails. A function
/// of the entries alone, for the same reason as `append_ok`.
pub uninterp spec fn finish_of(entries: Seq<(Seq<char>, Seq<u8>)>) -> Option<Seq<u8>>;

/// The entries of a gzipped tar stream, in order, as path and content; a
/// function of the bytes alone. `None` when the bytes are not such a stream
/// or an entry's path is not UTF-8.
pub uninterp spec fn unpack_of(data: Seq<u8>) -> Option<Seq<(Seq<char>, Seq<u8>)>>;

/// Relies on `tar::Builder::new` over `flate2::write::GzEncoder`: a fresh
/// archive holds no entries.
#[verifier::external_body]
pub fn archive_new() -> (b: ArchiveBuilder)
    ensures
        archive_entries(b) == Seq::<(Seq<char>, Seq<u8>)>::empty(),
{
    ArchiveBuilder {
        inner: tar::Builder::new(
            flate2::write::GzEncoder::new(Vec::new(), flate2::Compression::default()),
        ),
    }
}

/// Relies on `tar::Builder::append_data`: the call writes into the in-memory
/// stream, so its outcome depends on the appended entries and the new entry
/// alone; on success the archive gains exactly this entry, at its end.
///
/// The path must be in the snapshot's normal form: the header encoder
/// rewrites other paths (it drops `.` components and collapses repeated
/// separators, and on some platforms converts separators), so only a
/// normal-form path is stored verbatim and comes back unchanged when the
/// finished archive is unpacked.
#[verifier::external_body]
pub fn archive_append(b: &mut ArchiveBuilder, path: &String, data: &Vec<u8>) -> (r: bool)
    requires
        path_normal(path@),
    ensures
        r == append_ok(archive_entries(*old(b)), path@, data@),
        r ==> archive_entries(*final(b)) == archive_entries(*old(b)).push((path@, data@)),
{
    let mut header = tar::Header::new_gnu();
    header.set_size(data.len() as u64);
    header.set_mode(0o644);
    b.inner.append_data(&mut header, path.as_str(), data.as_slice()).is_ok()
}

/// Relies on `tar::Builder::into_inner` and `flate2`'s `GzEncoder::finish`,
/// and on `tar::Archive` reading back what `tar::Builder` wrote: finishing
/// yields the bytes `finish_of` names, and unpacking those bytes yields the
/// appended entries, in order. The paths come back verbatim because every
/// entry entered through `archive_append`, whose normal-form premise keeps
/// the header encoder from rewriting them.
#[verifier::external_body]
pub fn archive_finish(b: ArchiveBuilder) -> (r: Option<Vec<u8>>)
    ensures
        match r {
            Some(v) => finish_of(archive_entries(b)) == Some(v@) && unpack_of(v@) == Some(
                archive_entries(b),
            ),
            None => finish_of(archive_entries(b)) is None,
        },
{
    let enc = b.inner.into_inner().ok()?;
    enc.finish().ok()
}

/// Relies on `tar::Archive::entries` over `flate2::read::GzDecoder`: yields
/// the entries of a gzipped tar stream in order; the outcome depends on the
/// bytes alone.
#[verifier::external_body]
pub fn unpack_archive(data: &Vec<u8>) -> (r: Option<Vec<(String, Vec<u8>)>>)
    ensures
        r is Some ==> unpack_of(data@) == Some(r.unwrap().deep_view()),
        r is None ==> unpack_of(data@) is None,
{
    let dec = flate2::read::GzDecoder::new(data.as_slice());
    let mut ar = tar::Archive::new(dec);
    let mut out: Vec<(String, Vec<u8>)> = Vec::new();
    for entry in ar.entries().ok()? {
        let mut entry = entry.ok()?;
        let path = entry.path().ok()?.to_str()?.to_owned();
        let mut content: Vec<u8> = Vec::new();
        entry.read_to_end(&mut content).ok()?;
        out.push((path, content));
    }
    Some(out)
}

} // verus!
