use epub_parser::epub::EpubBook;
use epub_parser::error::EpubError;
use epub_parser::media_type::MediaType;

const CONTAINER: &str = r#"<?xml version="1.0"?>
<container version="1.0" xmlns="urn:oasis:names:tc:opendocument:xmlns:container">
  <rootfiles>
    <rootfile full-path="OEBPS/content.opf" media-type="application/oebps-package+xml"/>
  </rootfiles>
</container>"#;

const PACKAGE: &str = r#"<?xml version="1.0"?>
<package xmlns="http://www.idpf.org/2007/opf" version="3.0" unique-identifier="id">
  <metadata xmlns:dc="http://purl.org/dc/elements/1.1/">
    <dc:title>A Book</dc:title>
    <dc:creator>First Author</dc:creator>
    <dc:creator>Second Author</dc:creator>
    <dc:language>en</dc:language>
  </metadata>
  <manifest>
    <item id="ch1" href="text/ch1.xhtml" media-type="application/xhtml+xml"/>
    <item id="style" href="style.css" media-type="text/css"/>
    <item id="cover" href="images/cover.png" media-type="image/png"/>
  </manifest>
  <spine toc="ncx">
    <itemref idref="ch1"/>
    <itemref idref="style"/>
  </spine>
</package>"#;

fn zip_of(entries: &[(&str, &[u8])]) -> Vec<u8> {
    let mut w = zip::ZipWriter::new(std::io::Cursor::new(Vec::new()));
    for (name, data) in entries {
        let options = zip::write::SimpleFileOptions::default()
            .compression_method(zip::CompressionMethod::Stored);
        w.start_file(*name, options).unwrap();
        std::io::Write::write_all(&mut w, data).unwrap();
    }
    w.finish().unwrap().into_inner()
}

fn book_archive(package: &str) -> Vec<u8> {
    zip_of(&[
        ("mimetype", b"application/epub+zip"),
        ("META-INF/container.xml", CONTAINER.as_bytes()),
        ("OEBPS/content.opf", package.as_bytes()),
        ("OEBPS/text/ch1.xhtml", b"<html>chapter one</html>"),
        ("OEBPS/style.css", b"body {}"),
        ("OEBPS/images/cover.png", &[0x89, 0x50, 0x4e, 0x47, 0xff]),
    ])
}

#[test]
fn reads_metadata_spine_and_resources() {
    let book = EpubBook::new(&book_archive(PACKAGE)).unwrap();
    assert_eq!(book.metadata.title.as_deref(), Some("A Book"));
    assert_eq!(book.metadata.authors, vec!["First Author".to_string(), "Second Author".to_string()]);
    assert_eq!(book.metadata.language.as_deref(), Some("en"));
    assert_eq!(book.spine, vec!["ch1".to_string(), "style".to_string()]);
    let ch1 = book.resource("ch1").unwrap();
    assert_eq!(ch1.media_type, MediaType::Xhtml);
    assert_eq!(ch1.content, b"<html>chapter one</html>".to_vec());
    let css = book.resource("style").unwrap();
    assert_eq!(css.media_type, MediaType::Css);
    assert_eq!(css.content, b"body {}".to_vec());
    let cover = book.resource("cover").unwrap();
    assert_eq!(cover.media_type, MediaType::ImagePng);
    assert_eq!(cover.content, vec![0x89, 0x50, 0x4e, 0x47, 0xff]);
}

#[test]
fn unknown_resource_is_reported_with_its_id() {
    let book = EpubBook::new(&book_archive(PACKAGE)).unwrap();
    match book.resource("missing") {
        Err(EpubError::ResourceNotFound(id)) => assert_eq!(id, "missing"),
        other => panic!("unexpected {:?}", other.map(|r| r.content.len())),
    }
}

#[test]
fn later_item_with_same_id_replaces_earlier() {
    let package = PACKAGE.replace(r#"id="style""#, r#"id="ch1""#);
    let book = EpubBook::new(&book_archive(&package)).unwrap();
    let res = book.resource("ch1").unwrap();
    assert_eq!(res.media_type, MediaType::Css);
    assert_eq!(res.content, b"body {}".to_vec());
    assert!(book.resource("style").is_err());
}

#[test]
fn package_at_archive_root_has_empty_base_path() {
    let container = CONTAINER.replace("OEBPS/content.opf", "content.opf");
    let archive = zip_of(&[
        ("META-INF/container.xml", container.as_bytes()),
        ("content.opf", PACKAGE.as_bytes()),
        ("text/ch1.xhtml", b"one"),
        ("style.css", b"two"),
        ("images/cover.png", b"three"),
    ]);
    let book = EpubBook::new(&archive).unwrap();
    assert_eq!(book.resource("ch1").unwrap().content, b"one".to_vec());
    assert_eq!(book.resource("cover").unwrap().content, b"three".to_vec());
}

#[test]
fn first_rootfile_with_full_path_is_used() {
    let container = r#"<container><rootfiles><rootfile/><rootfile full-path="content.opf"/><rootfile full-path="other.opf"/></rootfiles></container>"#;
    let archive = zip_of(&[
        ("META-INF/container.xml", container.as_bytes()),
        ("content.opf", br#"<package><metadata><title>Right</title></metadata></package>"#),
        ("other.opf", br#"<package><metadata><title>Wrong</title></metadata></package>"#),
    ]);
    let book = EpubBook::new(&archive).unwrap();
    assert_eq!(book.metadata.title.as_deref(), Some("Right"));
    assert!(book.spine.is_empty());
}

#[test]
fn not_an_archive_is_a_zip_error() {
    assert!(matches!(EpubBook::new(b"this is not a zip file"), Err(EpubError::Zip(_))));
}

#[test]
fn missing_container_is_a_zip_error() {
    let archive = zip_of(&[("mimetype", b"application/epub+zip")]);
    assert!(matches!(EpubBook::new(&archive), Err(EpubError::Zip(_))));
}

#[test]
fn container_that_is_not_utf8_is_an_io_error() {
    let archive = zip_of(&[("META-INF/container.xml", &[0x3c, 0xff, 0xfe, 0x3e])]);
    assert!(matches!(EpubBook::new(&archive), Err(EpubError::Io(_))));
}

#[test]
fn corrupted_entry_is_an_io_error() {
    let mut archive = book_archive(PACKAGE);
    let needle = b"<html>chapter one</html>";
    let at = archive.windows(needle.len()).position(|w| w == needle).unwrap();
    archive[at + 1] = b'X';
    assert!(matches!(EpubBook::new(&archive), Err(EpubError::Io(_))));
}

#[test]
fn malformed_container_is_an_xml_error() {
    let archive = zip_of(&[("META-INF/container.xml", b"<container><rootfiles>")]);
    assert!(matches!(EpubBook::new(&archive), Err(EpubError::Xml(_))));
}

#[test]
fn malformed_package_is_an_xml_error() {
    let archive = book_archive("<package><metadata></package>");
    assert!(matches!(EpubBook::new(&archive), Err(EpubError::Xml(_))));
}

#[test]
fn container_without_rootfile_is_package_not_found() {
    let archive = zip_of(&[("META-INF/container.xml", b"<container><rootfiles><rootfile/></rootfiles></container>")]);
    assert!(matches!(EpubBook::new(&archive), Err(EpubError::PackageNotFound)));
}

#[test]
fn missing_package_document_is_a_zip_error() {
    let archive = zip_of(&[("META-INF/container.xml", CONTAINER.as_bytes())]);
    assert!(matches!(EpubBook::new(&archive), Err(EpubError::Zip(_))));
}

#[test]
fn manifest_item_without_href_is_reported() {
    let package = PACKAGE.replace(r#"href="style.css" "#, "");
    match EpubBook::new(&book_archive(&package)) {
        Err(EpubError::MissingAttribute { attr, loc }) => {
            assert_eq!(attr, "href");
            assert_eq!(loc, "manifest item");
        }
        _ => panic!("expected a missing attribute"),
    }
}

#[test]
fn manifest_item_without_id_is_reported() {
    let package = PACKAGE.replace(r#"id="style" "#, "");
    match EpubBook::new(&book_archive(&package)) {
        Err(EpubError::MissingAttribute { attr, loc }) => {
            assert_eq!(attr, "id");
            assert_eq!(loc, "manifest item");
        }
        _ => panic!("expected a missing attribute"),
    }
}

#[test]
fn manifest_item_without_media_type_is_reported() {
    let package = PACKAGE.replace(r#" media-type="text/css""#, "");
    match EpubBook::new(&book_archive(&package)) {
        Err(EpubError::MissingAttribute { attr, loc }) => {
            assert_eq!(attr, "media-type");
            assert_eq!(loc, "manifest item");
        }
        _ => panic!("expected a missing attribute"),
    }
}

#[test]
fn href_is_checked_before_id() {
    let package = PACKAGE.replace(r#"<item id="style" href="style.css" media-type="text/css"/>"#, "<item/>");
    match EpubBook::new(&book_archive(&package)) {
        Err(EpubError::MissingAttribute { attr, .. }) => assert_eq!(attr, "href"),
        _ => panic!("expected a missing attribute"),
    }
}

#[test]
fn manifest_item_with_missing_file_is_a_zip_error() {
    let package = PACKAGE.replace("style.css", "nowhere.css");
    assert!(matches!(EpubBook::new(&book_archive(&package)), Err(EpubError::Zip(_))));
}

#[test]
fn spine_item_without_idref_is_reported() {
    let package = PACKAGE.replace(r#"<itemref idref="style"/>"#, "<itemref/>");
    match EpubBook::new(&book_archive(&package)) {
        Err(EpubError::MissingAttribute { attr, loc }) => {
            assert_eq!(attr, "idref");
            assert_eq!(loc, "spine item");
        }
        _ => panic!("expected a missing attribute"),
    }
}

#[test]
fn mimetype_with_surrounding_whitespace_is_accepted() {
    let archive = zip_of(&[("mimetype", b"  application/epub+zip\n")]);
    assert!(EpubBook::verify_mimetype(&archive).is_ok());
}

#[test]
fn wrong_mimetype_is_rejected() {
    let archive = zip_of(&[("mimetype", b"application/zip")]);
    assert!(matches!(EpubBook::verify_mimetype(&archive), Err(EpubError::IncorrectMimeType)));
}

#[test]
fn missing_mimetype_is_a_zip_error() {
    let archive = zip_of(&[("other", b"x")]);
    assert!(matches!(EpubBook::verify_mimetype(&archive), Err(EpubError::Zip(_))));
}
