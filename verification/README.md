# epub_parser

Reads EPUB books: the ZIP container, the package document it names, and the
package's metadata, manifest and spine. Every decision the reader takes is
written in Verus and proved against a model of what it reads.

- `src/text.rs`: whitespace, trimming, comparison with a literal, and the
  directory part of a path.
- `src/xml.rs`: the XML tree the reader works on (all nodes in document
  order), parsed with `roxmltree`.
- `src/archive.rs`: reading entries of the archive with `zip`.
- `src/media_type.rs`: media types, read from and written as their names.
- `src/epub.rs`: the book: root file, manifest, spine, metadata, resources.
- `src/metadata.rs`: lenient and strict readings of Dublin Core metadata.
- `src/error.rs`: errors.
- `app/`: the command-line program, which reads `book.epub` from disk.
