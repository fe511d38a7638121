//! The errors of the reader.

use vstd::prelude::*;

verus! {

/// `std::io::Error`, carried by the errors of reading an archive entry.
#[verifier::external_type_specification]
#[verifier::external_body]
pub struct ExIoError(std::io::Error);

/// `zip::result::ZipError`, carried by the errors of opening an archive or
/// finding an entry in it.
#[verifier::external_type_specification]
#[verifier::external_body]
pub struct ExZipError(zip::result::ZipError);

/// `std::str::Utf8Error`.
#[verifier::external_type_specification]
#[verifier::external_body]
pub struct ExUtf8Error(std::str::Utf8Error);

/// What keeps a book's metadata from being complete.
#[derive(Debug, Hash, PartialEq, Eq, Clone, Copy, Structural)]
pub enum MetadataError {
    NoIdentifier,
    NoTitle,
    NoLanguage,
    NoLastModified,
    MultipleDates,
    MultipleLastModified,
}

/// An error of reading a book.
#[derive(Debug)]
pub enum EpubError {
    Io(std::io::Error),
    Zip(zip::result::ZipError),
    Xml(roxmltree::Error),
    Utf8(std::str::Utf8Error),
    IncorrectMimeType,
    PackageNotFound,
    NotTextContent,
    Metadata(MetadataError),
    ResourceNotFound(String),
    MissingAttribute { attr: &'static str, loc: &'static str },
}

/// What an error is, leaving out the payloads of the outside crates.
pub ghost enum EpubErrorKind {
    Io,
    Zip,
    Xml,
    Utf8,
    IncorrectMimeType,
    PackageNotFound,
    NotTextContent,
    Metadata(MetadataError),
    ResourceNotFound(Seq<char>),
    MissingAttribute(Seq<char>, Seq<char>),
}

impl View for EpubError {
    type V = EpubErrorKind;

    open spec fn view(&self) -> EpubErrorKind {
        match self {
            EpubError::Io(_) => EpubErrorKind::Io,
            EpubError::Zip(_) => EpubErrorKind::Zip,
            EpubError::Xml(_) => EpubErrorKind::Xml,
            EpubError::Utf8(_) => EpubErrorKind::Utf8,
            EpubError::IncorrectMimeType => EpubErrorKind::IncorrectMimeType,
            EpubError::PackageNotFound => EpubErrorKind::PackageNotFound,
            EpubError::NotTextContent => EpubErrorKind::NotTextContent,
            EpubError::Metadata(m) => EpubErrorKind::Metadata(*m),
            EpubError::ResourceNotFound(id) => EpubErrorKind::ResourceNotFound(id@),
            EpubError::MissingAttribute { attr, loc } => EpubErrorKind::MissingAttribute(
                attr@,
                loc@,
            ),
        }
    }
}

pub type EpubResult<T> = Result<T, EpubError>;

} // verus!
