use epub_parser::xml::{XmlAttribute, XmlDocument, XmlNode};

fn child_named(doc: &XmlDocument, parent: usize, name: &str) -> usize {
    *doc.node(parent).children.iter().find(|&&c| doc.node(c).name == name).unwrap()
}

#[test]
fn nodes_are_listed_in_document_order() {
    let doc = XmlDocument::parse("<a><b>x</b><c/>tail</a>").unwrap();
    assert_eq!(doc.len(), 6);
    assert_eq!(doc.node(0).name, "");
    let root = doc.root_element();
    assert_eq!(root, 1);
    assert_eq!(doc.node(root).name, "a");
    assert_eq!(doc.node(root).children, vec![2, 4, 5]);
    assert_eq!(doc.node(2).name, "b");
    assert_eq!(doc.node(2).children, vec![3]);
    assert_eq!(doc.node(3).text.as_deref(), Some("x"));
    assert_eq!(doc.node(4).name, "c");
    assert_eq!(doc.node(5).text.as_deref(), Some("tail"));
}

#[test]
fn element_text_is_its_first_text_child() {
    let doc = XmlDocument::parse("<a><b> hi </b><c><d/>after</c><e/></a>").unwrap();
    let root = doc.root_element();
    assert_eq!(doc.node(child_named(&doc, root, "b")).text(), Some(" hi ".to_string()));
    assert_eq!(doc.node(child_named(&doc, root, "c")).text(), None);
    assert_eq!(doc.node(child_named(&doc, root, "e")).text(), None);
}

#[test]
fn names_and_namespaces() {
    let doc = XmlDocument::parse(r#"<p xmlns:dc="http://purl.org/dc/elements/1.1/"><dc:title>T</dc:title><title>U</title></p>"#).unwrap();
    let root = doc.root_element();
    let kids = &doc.node(root).children;
    let first = doc.node(kids[0]);
    assert!(first.has_name("title"));
    assert_eq!(first.namespace.as_deref(), Some("http://purl.org/dc/elements/1.1/"));
    let second = doc.node(kids[1]);
    assert!(second.has_name("title"));
    assert_eq!(second.namespace, None);
}

#[test]
fn attributes_are_found_by_local_name() {
    let doc = XmlDocument::parse(r#"<r xmlns:o="urn:x" a="1" o:b="2"/>"#).unwrap();
    let r = doc.node(doc.root_element());
    assert_eq!(r.attribute("a"), Some("1".to_string()));
    assert_eq!(r.attribute("b"), Some("2".to_string()));
    assert_eq!(r.attribute("c"), None);
}

#[test]
fn malformed_text_is_refused() {
    assert!(XmlDocument::parse("<a><b></a>").is_err());
    assert!(XmlDocument::parse("").is_err());
    assert!(XmlDocument::parse("no markup").is_err());
}

fn leaf(name: &str, children: Vec<usize>) -> XmlNode {
    XmlNode {
        namespace: None,
        name: name.to_string(),
        attributes: vec![XmlAttribute { name: "k".to_string(), value: "v".to_string() }],
        text: None,
        children,
    }
}

#[test]
fn documents_built_by_hand_are_checked() {
    let ok = XmlDocument::new(vec![leaf("", vec![1]), leaf("a", vec![])], 1);
    assert!(ok.is_some());
    let doc = ok.unwrap();
    assert_eq!(doc.node(1).attribute("k"), Some("v".to_string()));
    assert!(XmlDocument::new(vec![leaf("", vec![2]), leaf("a", vec![])], 1).is_none());
    assert!(XmlDocument::new(vec![leaf("", vec![1]), leaf("a", vec![])], 2).is_none());
    assert!(XmlDocument::new(vec![], 0).is_none());
}
