//! The boundary to the `zip` crate: an archive parsed from an in-memory
//! buffer, its entry count, and per-index access to entry metadata and
//! decompressed contents. Every item here is trusted; everything said of the
//! archive is said over `zip_entries` and `archive_entries`.

use vstd::prelude::*;

verus! {

#[verifier::external_type_specification]
#[verifier::external_body]
#[verifier::reject_recursive_types(R)]
pub struct ExZipArchive<R>(zip::read::ZipArchive<R>);

#[verifier::external_type_specification]
#[verifier::external_body]
#[verifier::reject_recursive_types(T)]
pub struct ExCursor<T>(std::io::Cursor<T>);

/// A ZIP archive read out of an owned byte buffer.
pub type MemArchive = zip::read::ZipArchive<std::io::Cursor<Vec<u8>>>;

/// One entry as the model sees it: its stored name, its file-vs-directory
/// flag, whether the entry can be opened at all, and its decompressed
/// contents — `None` when they cannot be read. Over an in-memory buffer,
/// both failures are functions of the bytes alone.
pub type EntryModel = (Seq<char>, bool, bool, Option<Seq<u8>>);

/// The entries an opened archive holds, in central-directory order.
pub uninterp spec fn archive_entries(a: MemArchive) -> Seq<EntryModel>;

/// What parsing a byte buffer as a ZIP archive yields: `None` when the bytes
/// are not a readable archive, otherwise its entries. Parsing an in-memory
/// buffer is a function of the bytes alone.
pub uninterp spec fn zip_entries(bytes: Seq<u8>) -> Option<Seq<EntryModel>>;

/// Relies on zip::ZipArchive::new: reading the central directory of an
/// in-memory buffer succeeds or fails as a function of the bytes alone, and
/// on success the archive holds exactly the parsed entries.
#[verifier::external_body]
pub(crate) fn open_archive(bytes: &Vec<u8>) -> (r: Result<MemArchive, String>)
    ensures
        r is Ok <==> zip_entries(bytes@) is Some,
        r matches Ok(a) ==> archive_entries(a) == zip_entries(bytes@).unwrap(),
{
    match zip::read::ZipArchive::new(std::io::Cursor::new(bytes.clone())) {
        Ok(a) => Ok(a),
        Err(e) => Err(format!("{}", e)),
    }
}

/// Relies on zip::ZipArchive::len: the number of entries the archive holds.
#[verifier::external_body]
pub(crate) fn archive_len(a: &MemArchive) -> (n: usize)
    ensures
        n == archive_entries(*a).len(),
{
    a.len()
}

/// Relies on zip::ZipArchive::by_index, zip::read::ZipFile::name and
/// zip::read::ZipFile::is_file: the stored name and the file flag of the
/// entry at `i`. Opening the entry succeeds or fails as a function of the
/// buffer alone — that is the entry's third component. Reading metadata
/// leaves the archive's entries as they were.
#[verifier::external_body]
pub(crate) fn entry_meta(a: &mut MemArchive, i: usize) -> (r: Result<(String, bool), String>)
    requires
        i < archive_entries(*old(a)).len(),
    ensures
        archive_entries(*final(a)) == archive_entries(*old(a)),
        r is Ok <==> archive_entries(*old(a))[i as int].2,
        r matches Ok(m) ==> m.0@ == archive_entries(*old(a))[i as int].0,
        r matches Ok(m) ==> m.1 == archive_entries(*old(a))[i as int].1,
{
    match a.by_index(i) {
        Ok(f) => {
            let name = f.name().to_owned();
            let is_file = f.is_file();
            Ok((name, is_file))
        },
        Err(e) => Err(format!("{}", e)),
    }
}

/// Relies on zip::ZipArchive::by_index and the std::io::Read impl of
/// zip::read::ZipFile: the decompressed contents of the entry at `i`, which
/// over an in-memory buffer exist or not as a function of the bytes alone —
/// that is the entry's fourth component. Reading contents leaves the
/// archive's entries as they were.
#[verifier::external_body]
pub(crate) fn entry_bytes(a: &mut MemArchive, i: usize) -> (r: Result<Vec<u8>, String>)
    requires
        i < archive_entries(*old(a)).len(),
    ensures
        archive_entries(*final(a)) == archive_entries(*old(a)),
        r is Ok <==> archive_entries(*old(a))[i as int].3 is Some,
        r matches Ok(d) ==> d@ == archive_entries(*old(a))[i as int].3.unwrap(),
{
    match a.by_index(i) {
        Ok(mut f) => {
            let mut data: Vec<u8> = Vec::new();
            match std::io::Read::read_to_end(&mut f, &mut data) {
                Ok(_) => Ok(data),
                Err(e) => Err(format!("{}", e)),
            }
        },
        Err(e) => Err(format!("{}", e)),
    }
}

} // verus!
