//! Trusted boundary to the `zip` crate.
//!
//! An opened archive is a randomly indexable container of named entries.
//! Verus sees the archive as an opaque value whose contents are given by
//! the uninterpreted function [`archive_entries`]: for each entry, in the
//! archive's own order, its decoded name and its decompressed bytes —
//! `None` for an entry whose bytes cannot be read out (encrypted,
//! unsupported or corrupt).  Whether a byte buffer parses as an archive at
//! all, and to which entries, is likewise a function of the bytes alone
//! and carries the name [`zip_parse`].  Every method of the `zip` crate
//! that the engine calls goes through one of the wrappers below, whose
//! contracts speak over those two names.

use vstd::prelude::*;

verus! {

#[verifier::external_type_specification]
#[verifier::external_body]
#[verifier::reject_recursive_types(T)]
pub struct ExCursor<T>(std::io::Cursor<T>);

#[verifier::external_type_specification]
#[verifier::external_body]
#[verifier::reject_recursive_types(R)]
pub struct ExZipArchive<R>(zip::ZipArchive<R>);

#[verifier::external_type_specification]
#[verifier::external_body]
pub struct ExZipError(zip::result::ZipError);

/// The contents of an opened archive: for each entry, its decoded name
/// and its decompressed bytes (`None` when reading them fails), in the
/// archive's central-directory order.
pub uninterp spec fn archive_entries(
    a: zip::ZipArchive<std::io::Cursor<Vec<u8>>>,
) -> Seq<(Seq<char>, Option<Seq<u8>>)>;

/// What parsing a byte buffer as a zip archive yields: `None` when the
/// buffer is not a valid archive, and otherwise the entry sequence of the
/// archive it opens to.  Parsing an in-memory buffer depends on the bytes
/// alone.
pub uninterp spec fn zip_parse(data: Seq<u8>) -> Option<Seq<(Seq<char>, Option<Seq<u8>>)>>;

/// Relies on `zip::ZipArchive::new`: parsing an in-memory byte buffer is a
/// function of the bytes alone; it succeeds exactly when the buffer is a
/// valid archive, and the archive it returns holds that buffer's entries.
#[verifier::external_body]
pub(crate) fn archive_open(
    data: Vec<u8>,
) -> (r: Result<zip::ZipArchive<std::io::Cursor<Vec<u8>>>, zip::result::ZipError>)
    ensures
        r is Ok <==> zip_parse(data@) is Some,
        r matches Ok(a) ==> Some(archive_entries(a)) == zip_parse(data@),
{
    zip::ZipArchive::new(std::io::Cursor::new(data))
}

/// Relies on `zip::ZipArchive::len`: the number of entries of the archive.
#[verifier::external_body]
pub(crate) fn archive_len(a: &zip::ZipArchive<std::io::Cursor<Vec<u8>>>) -> (n: usize)
    ensures
        n == archive_entries(*a).len(),
{
    a.len()
}

/// Relies on `zip::ZipArchive::name_for_index`: the decoded name of entry
/// `i`, which its source returns for every index below `len`.
#[verifier::external_body]
pub(crate) fn entry_name(a: &zip::ZipArchive<std::io::Cursor<Vec<u8>>>, i: usize) -> (r: String)
    requires
        i < archive_entries(*a).len(),
    ensures
        r@ == archive_entries(*a)[i as int].0,
{
    a.name_for_index(i).unwrap().to_owned()
}

/// Relies on `zip::ZipArchive::by_index` and `Read::read_to_end` on the
/// entry it returns: the decompressed bytes of entry `i`.  Reading moves
/// only the underlying reader's position, so the archive's contents are
/// unchanged; on an in-memory buffer the read is a function of the
/// archive and the index alone, failing exactly for the entries whose
/// bytes the archive does not yield (encrypted, unsupported or corrupt).
#[verifier::external_body]
pub(crate) fn entry_data(
    a: &mut zip::ZipArchive<std::io::Cursor<Vec<u8>>>,
    i: usize,
) -> (r: Result<Vec<u8>, zip::result::ZipError>)
    requires
        i < archive_entries(*old(a)).len(),
    ensures
        archive_entries(*final(a)) == archive_entries(*old(a)),
        r is Ok <==> archive_entries(*old(a))[i as int].1 is Some,
        r matches Ok(d) ==> Some(d@) == archive_entries(*old(a))[i as int].1,
{
    match a.by_index(i) {
        Ok(mut f) => {
            let mut buf: Vec<u8> = Vec::new();
            match std::io::Read::read_to_end(&mut f, &mut buf) {
                Ok(_) => Ok(buf),
                Err(e) => Err(zip::result::ZipError::Io(e)),
            }
        },
        Err(e) => Err(e),
    }
}

} // verus!
