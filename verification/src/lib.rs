//! Reading EPUB books: the container, the package document, its metadata,
//! manifest and spine, with every decision of the reader proved against a
//! model of the XML tree and of the archive.

pub mod text;
pub mod xml;
pub mod error;
pub mod archive;
pub mod media_type;
pub mod epub;
pub mod metadata;
