//! Reading entries of the ZIP archive that holds a book.

use vstd::prelude::*;
use vstd::utf8::{decode_utf8, encode_utf8, valid_utf8};

use crate::error::{EpubError, EpubErrorKind};

verus! {

/// What an entry of an archive reads as: nothing where the archive cannot
/// be opened or holds no entry of that name, `Some(None)` where the entry is
/// there but its data cannot be read whole, and its bytes otherwise.
pub uninterp spec fn zip_entry(archive: Seq<u8>, name: Seq<char>) -> Option<Option<Seq<u8>>>;

/// The failure of a read, before it becomes an `EpubError`.
pub enum ArchiveError {
    Lookup(zip::result::ZipError),
    Read(std::io::Error),
}

/// Opens `archive` with `zip::ZipArchive::new` over a cursor, finds `name`
/// with `ZipArchive::by_name` and reads it whole with `Read::read_to_end`.
/// Trusted: that the outcome is the one named by `zip_entry` for these
/// bytes and this name, with a failure of opening or lookup reported as
/// `Lookup` and one of reading as `Read`.
#[verifier::external_body]
fn read_entry_bytes(archive: &[u8], name: &str) -> (res: Result<Vec<u8>, ArchiveError>)
    ensures
        match res {
            Ok(bytes) => zip_entry(archive@, name@) == Some(Some(bytes@)),
            Err(ArchiveError::Lookup(_)) => zip_entry(archive@, name@) is None,
            Err(ArchiveError::Read(_)) => zip_entry(archive@, name@) == Some(None::<Seq<u8>>),
        },
{
    let mut zip = zip::ZipArchive::new(std::io::Cursor::new(archive)).map_err(ArchiveError::Lookup)?;
    let mut entry = zip.by_name(name).map_err(ArchiveError::Lookup)?;
    let mut buf = Vec::new();
    std::io::Read::read_to_end(&mut entry, &mut buf).map_err(ArchiveError::Read)?;
    Ok(buf)
}

/// Opens `archive` with `zip::ZipArchive::new` over a cursor, finds `name`
/// with `ZipArchive::by_name` and reads it whole with `Read::read_to_string`.
/// Trusted: as for `read_entry_bytes`, and that `read_to_string` succeeds
/// exactly on data that is valid UTF-8 and then gives the text those bytes
/// encode (std documents that it fails on invalid UTF-8).
#[verifier::external_body]
fn read_entry_string(archive: &[u8], name: &str) -> (res: Result<String, ArchiveError>)
    ensures
        match res {
            Ok(text) => zip_entry(archive@, name@) == Some(Some(encode_utf8(text@))),
            Err(ArchiveError::Lookup(_)) => zip_entry(archive@, name@) is None,
            Err(ArchiveError::Read(_)) => match zip_entry(archive@, name@) {
                Some(Some(bytes)) => !valid_utf8(bytes),
                Some(None) => true,
                None => false,
            },
        },
{
    let mut zip = zip::ZipArchive::new(std::io::Cursor::new(archive)).map_err(ArchiveError::Lookup)?;
    let mut entry = zip.by_name(name).map_err(ArchiveError::Lookup)?;
    let mut text = String::new();
    std::io::Read::read_to_string(&mut entry, &mut text).map_err(ArchiveError::Read)?;
    Ok(text)
}

/// The bytes of entry `name`, or the kind of error reading it gives.
pub open spec fn spec_entry_bytes(archive: Seq<u8>, name: Seq<char>) -> Result<
    Seq<u8>,
    EpubErrorKind,
> {
    match zip_entry(archive, name) {
        None => Err(EpubErrorKind::Zip),
        Some(None) => Err(EpubErrorKind::Io),
        Some(Some(bytes)) => Ok(bytes),
    }
}

/// The text of entry `name`, or the kind of error reading it gives.
pub open spec fn spec_entry_text(archive: Seq<u8>, name: Seq<char>) -> Result<
    Seq<char>,
    EpubErrorKind,
> {
    match zip_entry(archive, name) {
        None => Err(EpubErrorKind::Zip),
        Some(None) => Err(EpubErrorKind::Io),
        Some(Some(bytes)) => if valid_utf8(bytes) {
            Ok(decode_utf8(bytes))
        } else {
            Err(EpubErrorKind::Io)
        },
    }
}

/// Reads entry `name` of `archive` whole.
pub fn entry_bytes(archive: &[u8], name: &str) -> (res: Result<Vec<u8>, EpubError>)
    ensures
        match res {
            Ok(bytes) => spec_entry_bytes(archive@, name@) == Ok::<Seq<u8>, EpubErrorKind>(bytes@),
            Err(e) => spec_entry_bytes(archive@, name@) == Err::<Seq<u8>, EpubErrorKind>(e@),
        },
{
    match read_entry_bytes(archive, name) {
        Ok(bytes) => Ok(bytes),
        Err(ArchiveError::Lookup(e)) => Err(EpubError::Zip(e)),
        Err(ArchiveError::Read(e)) => Err(EpubError::Io(e)),
    }
}

/// Reads entry `name` of `archive` whole as UTF-8 text.
pub fn entry_text(archive: &[u8], name: &str) -> (res: Result<String, EpubError>)
    ensures
        match res {
            Ok(text) => spec_entry_text(archive@, name@) == Ok::<Seq<char>, EpubErrorKind>(text@),
            Err(e) => spec_entry_text(archive@, name@) == Err::<Seq<char>, EpubErrorKind>(e@),
        },
{
    match read_entry_string(archive, name) {
        Ok(text) => {
            proof {
                vstd::utf8::encode_utf8_valid_utf8(text@);
                vstd::utf8::encode_utf8_decode_utf8(text@);
            }
            Ok(text)
        },
        Err(ArchiveError::Lookup(e)) => Err(EpubError::Zip(e)),
        Err(ArchiveError::Read(e)) => Err(EpubError::Io(e)),
    }
}

} // verus!
