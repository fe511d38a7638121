use epub_parser::epub::{extract_root_path, read_manifest, read_spine};
use epub_parser::error::EpubError;
use epub_parser::media_type::MediaType;
use epub_parser::xml::XmlDocument;

fn first_child(doc: &XmlDocument, name: &str) -> usize {
    let root = doc.node(doc.root_element());
    *root.children.iter().find(|&&c| doc.node(c).name == name).unwrap()
}

#[test]
fn root_path_is_found_anywhere_in_the_document() {
    let doc = XmlDocument::parse(r#"<c><x><y><rootfile full-path="deep/p.opf"/></y></x></c>"#).unwrap();
    assert_eq!(extract_root_path(&doc).unwrap(), "deep/p.opf");
}

#[test]
fn root_path_ignores_other_elements_with_full_path() {
    let doc = XmlDocument::parse(r#"<c full-path="no.opf"><file full-path="no2.opf"/><rootfile full-path="yes.opf"/></c>"#).unwrap();
    assert_eq!(extract_root_path(&doc).unwrap(), "yes.opf");
}

#[test]
fn no_root_path_is_package_not_found() {
    let doc = XmlDocument::parse("<c><rootfile path=\"x\"/></c>").unwrap();
    assert!(matches!(extract_root_path(&doc), Err(EpubError::PackageNotFound)));
}

#[test]
fn spine_lists_idrefs_in_order_and_skips_other_children() {
    let doc = XmlDocument::parse(r#"<p><spine> <itemref idref="b"/> text <other/><itemref idref="a"/></spine></p>"#).unwrap();
    let spine = first_child(&doc, "spine");
    assert_eq!(read_spine(&doc, spine).unwrap(), vec!["b".to_string(), "a".to_string()]);
}

#[test]
fn empty_spine_is_empty() {
    let doc = XmlDocument::parse("<p><spine/></p>").unwrap();
    let spine = first_child(&doc, "spine");
    assert!(read_spine(&doc, spine).unwrap().is_empty());
}

#[test]
fn manifest_reads_entries_relative_to_base() {
    let mut w = zip::ZipWriter::new(std::io::Cursor::new(Vec::new()));
    let options = zip::write::SimpleFileOptions::default();
    w.start_file("base/a.txt", options).unwrap();
    std::io::Write::write_all(&mut w, b"alpha").unwrap();
    let archive = w.finish().unwrap().into_inner();
    let doc = XmlDocument::parse(r#"<p><manifest><item id="a" href="a.txt" media-type="text/plain"/><note/></manifest></p>"#).unwrap();
    let manifest = first_child(&doc, "manifest");
    let resources = read_manifest(&archive, &doc, manifest, "base/").unwrap();
    let a = resources.get("a").unwrap();
    assert_eq!(a.content, b"alpha".to_vec());
    assert_eq!(a.media_type, MediaType::Other("text/plain".to_string()));
    assert!(matches!(read_manifest(&archive, &doc, manifest, ""), Err(EpubError::Zip(_))));
}
