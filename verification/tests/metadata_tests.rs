use epub_parser::epub::EpubMetadata;
use epub_parser::error::MetadataError;
use epub_parser::metadata::{LenientMetadata, StrictMetadata};
use epub_parser::xml::XmlDocument;

fn metadata_doc(inner: &str) -> (XmlDocument, usize) {
    let text = format!(
        r#"<package xmlns="http://www.idpf.org/2007/opf" xmlns:dc="http://purl.org/dc/elements/1.1/"><metadata>{}</metadata></package>"#,
        inner
    );
    let doc = XmlDocument::parse(&text).unwrap();
    let root = doc.root_element();
    let node = doc.node(root).children[0];
    (doc, node)
}

const COMPLETE: &str = r#"
  <dc:identifier> urn:isbn:123 </dc:identifier>
  <dc:title>
     The Title
  </dc:title>
  <dc:language>en</dc:language>
  <dc:contributor>Helper</dc:contributor>
  <dc:coverage>World</dc:coverage>
  <dc:creator>Author</dc:creator>
  <dc:date>2020-01-01</dc:date>
  <dc:description>About it</dc:description>
  <dc:format>epub</dc:format>
  <dc:publisher>House</dc:publisher>
  <dc:relation>none</dc:relation>
  <dc:rights>All</dc:rights>
  <dc:source>Somewhere</dc:source>
  <dc:subject>Fiction</dc:subject>
  <dc:type>Text</dc:type>
  <meta property="dcterms:modified"> 2021-02-03T04:05:06Z </meta>
  <meta name="cover" content="cover-image"/>
"#;

#[test]
fn lenient_reads_every_dublin_core_element() {
    let (doc, node) = metadata_doc(COMPLETE);
    let m = LenientMetadata::from_xml(&doc, node);
    assert_eq!(m.identifiers, vec!["urn:isbn:123"]);
    assert_eq!(m.titles, vec!["The Title"]);
    assert_eq!(m.languages, vec!["en"]);
    assert_eq!(m.contributors, vec!["Helper"]);
    assert_eq!(m.coverages, vec!["World"]);
    assert_eq!(m.creators, vec!["Author"]);
    assert_eq!(m.dates, vec!["2020-01-01"]);
    assert_eq!(m.descriptions, vec!["About it"]);
    assert_eq!(m.formats, vec!["epub"]);
    assert_eq!(m.publishers, vec!["House"]);
    assert_eq!(m.relations, vec!["none"]);
    assert_eq!(m.rights, vec!["All"]);
    assert_eq!(m.sources, vec!["Somewhere"]);
    assert_eq!(m.subjects, vec!["Fiction"]);
    assert_eq!(m.types, vec!["Text"]);
    assert_eq!(m.last_modified.as_deref(), Some("2021-02-03T04:05:06Z"));
    assert_eq!(m.cover_image.as_deref(), Some("cover-image"));
    assert!(m.parse_warnings.is_empty());
}

#[test]
fn lenient_warns_of_everything_missing() {
    let (doc, node) = metadata_doc("");
    let m = LenientMetadata::from_xml(&doc, node);
    assert_eq!(
        m.parse_warnings,
        vec![
            MetadataError::NoIdentifier,
            MetadataError::NoTitle,
            MetadataError::NoLanguage,
            MetadataError::NoLastModified
        ]
    );
}

#[test]
fn lenient_ignores_elements_outside_dublin_core() {
    let (doc, node) = metadata_doc("<title>Plain</title><identifier>x</identifier><dc:meta property=\"dcterms:modified\">y</dc:meta>");
    let m = LenientMetadata::from_xml(&doc, node);
    assert!(m.titles.is_empty());
    assert!(m.identifiers.is_empty());
    assert_eq!(m.last_modified, None);
}

#[test]
fn lenient_skips_elements_without_text() {
    let (doc, node) = metadata_doc("<dc:title/><dc:creator><b>x</b></dc:creator><dc:title>Real</dc:title>");
    let m = LenientMetadata::from_xml(&doc, node);
    assert_eq!(m.titles, vec!["Real"]);
    assert!(m.creators.is_empty());
}

#[test]
fn second_date_is_kept_with_a_warning() {
    let (doc, node) = metadata_doc("<dc:date>2001</dc:date><dc:date> 2002 </dc:date>");
    let m = LenientMetadata::from_xml(&doc, node);
    assert_eq!(m.dates, vec!["2001", "2002"]);
    assert_eq!(m.parse_warnings[0], MetadataError::MultipleDates);
}

#[test]
fn empty_date_before_a_date_gives_no_warning() {
    let (doc, node) = metadata_doc("<dc:date/><dc:date>2002</dc:date>");
    let m = LenientMetadata::from_xml(&doc, node);
    assert_eq!(m.dates, vec!["2002"]);
    assert!(!m.parse_warnings.contains(&MetadataError::MultipleDates));
}

#[test]
fn date_after_a_date_warns_even_without_text() {
    let (doc, node) = metadata_doc("<dc:date>2001</dc:date><dc:date/>");
    let m = LenientMetadata::from_xml(&doc, node);
    assert_eq!(m.dates, vec!["2001"]);
    assert!(m.parse_warnings.contains(&MetadataError::MultipleDates));
}

#[test]
fn later_modification_replaces_earlier_with_a_warning() {
    let (doc, node) = metadata_doc(
        r#"<meta property="dcterms:modified">one</meta><meta property="dcterms:modified">two</meta>"#,
    );
    let m = LenientMetadata::from_xml(&doc, node);
    assert_eq!(m.last_modified.as_deref(), Some("two"));
    assert_eq!(m.parse_warnings[0], MetadataError::MultipleLastModified);
}

#[test]
fn modification_without_text_clears_it() {
    let (doc, node) = metadata_doc(
        r#"<meta property="dcterms:modified">one</meta><meta property="dcterms:modified"/>"#,
    );
    let m = LenientMetadata::from_xml(&doc, node);
    assert_eq!(m.last_modified, None);
    assert!(m.parse_warnings.contains(&MetadataError::MultipleLastModified));
    assert!(m.parse_warnings.contains(&MetadataError::NoLastModified));
}

#[test]
fn cover_without_content_clears_it() {
    let (doc, node) = metadata_doc(r#"<meta name="cover" content="c1"/><meta name="cover"/>"#);
    let m = LenientMetadata::from_xml(&doc, node);
    assert_eq!(m.cover_image, None);
    let (doc, node) = metadata_doc(r#"<meta name="cover" content="c1"/><meta name="other" content="c2"/>"#);
    let m = LenientMetadata::from_xml(&doc, node);
    assert_eq!(m.cover_image.as_deref(), Some("c1"));
}

#[test]
fn lenient_values_carry_no_surrounding_whitespace() {
    let (doc, node) = metadata_doc(COMPLETE);
    let m = LenientMetadata::from_xml(&doc, node);
    for v in m.identifiers.iter().chain(m.titles.iter()).chain(m.dates.iter()) {
        assert_eq!(v.trim(), v);
    }
    let lm = m.last_modified.unwrap();
    assert_eq!(lm.trim(), lm);
}

#[test]
fn strict_accepts_complete_metadata() {
    let (doc, node) = metadata_doc(COMPLETE);
    let s = StrictMetadata::try_from_xml(&doc, node).unwrap();
    assert_eq!(s.identifiers, vec!["urn:isbn:123"]);
    assert_eq!(s.titles, vec!["The Title"]);
    assert_eq!(s.languages, vec!["en"]);
    assert_eq!(s.date.as_deref(), Some("2020-01-01"));
    assert_eq!(s.last_modified, "2021-02-03T04:05:06Z");
    assert_eq!(s.cover_image.as_deref(), Some("cover-image"));
    assert_eq!(s.types, vec!["Text"]);
}

#[test]
fn strict_refuses_with_the_warnings() {
    let (doc, node) = metadata_doc("<dc:title>T</dc:title>");
    let w = StrictMetadata::try_from_xml(&doc, node).err().unwrap();
    assert_eq!(
        w,
        vec![MetadataError::NoIdentifier, MetadataError::NoLanguage, MetadataError::NoLastModified]
    );
    let (doc, node) = metadata_doc(&format!("{}<dc:date>2030</dc:date>", COMPLETE));
    let w = StrictMetadata::try_from_xml(&doc, node).err().unwrap();
    assert_eq!(w, vec![MetadataError::MultipleDates]);
}

#[test]
fn strict_takes_the_last_date() {
    let mut lenient = LenientMetadata::default();
    lenient.identifiers.push("id".to_string());
    lenient.dates = vec!["first".to_string(), "second".to_string()];
    lenient.last_modified = Some("lm".to_string());
    let s = StrictMetadata::try_from(lenient).unwrap();
    assert_eq!(s.date.as_deref(), Some("second"));
    assert_eq!(s.last_modified, "lm");
    assert_eq!(s.identifiers, vec!["id"]);
}

#[test]
fn strict_from_lenient_with_warnings_returns_them() {
    let mut lenient = LenientMetadata::default();
    lenient.parse_warnings.push(MetadataError::NoTitle);
    assert_eq!(StrictMetadata::try_from(lenient).err(), Some(vec![MetadataError::NoTitle]));
}

#[test]
fn epub_metadata_reads_title_authors_language() {
    let (doc, node) = metadata_doc("<dc:title>T</dc:title><dc:creator>A</dc:creator><dc:creator/><dc:creator>B</dc:creator><dc:language>fr</dc:language>");
    let m = EpubMetadata::from_xml(&doc, node);
    assert_eq!(m.title.as_deref(), Some("T"));
    assert_eq!(m.authors, vec!["A", "B"]);
    assert_eq!(m.language.as_deref(), Some("fr"));
}

#[test]
fn epub_metadata_later_title_without_text_clears_it() {
    let (doc, node) = metadata_doc("<dc:title>T</dc:title><title/>");
    let m = EpubMetadata::from_xml(&doc, node);
    assert_eq!(m.title, None);
    assert!(m.authors.is_empty());
    assert_eq!(m.language, None);
}
