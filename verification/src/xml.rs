//! The XML tree that the reader works on: every node of a parsed document,
//! in document order, with what the reader asks of it (its expanded name,
//! its attributes, its text and its children).

use vstd::prelude::*;

use crate::text::str_is;

verus! {

/// The error that `roxmltree` reports for text that is not well-formed XML.
#[verifier::external_type_specification]
#[verifier::external_body]
pub struct ExXmlError(roxmltree::Error);

/// An attribute: its local name and its value.
pub struct XmlAttribute {
    pub name: String,
    pub value: String,
}

/// A node of the document. For a node that is not an element the name is
/// empty, the namespace absent and the attribute list empty. `text` is what
/// the node reads as text: for an element the text of its first child where
/// that child is a text node. `children` are the indices of the child nodes
/// in the document's node list, in order.
pub struct XmlNode {
    pub namespace: Option<String>,
    pub name: String,
    pub attributes: Vec<XmlAttribute>,
    pub text: Option<String>,
    pub children: Vec<usize>,
}

/// The mathematical value of a node.
pub ghost struct XmlNodeView {
    pub namespace: Option<Seq<char>>,
    pub name: Seq<char>,
    pub attributes: Seq<(Seq<char>, Seq<char>)>,
    pub text: Option<Seq<char>>,
    pub children: Seq<usize>,
}

/// The mathematical value of a document: its nodes in document order (the
/// order in which the document's descendants are walked, the document node
/// first) and the index of its root element.
pub ghost struct XmlDocumentView {
    pub nodes: Seq<XmlNodeView>,
    pub root: usize,
}

/// The view of an optional string.
pub open spec fn view_opt(o: Option<String>) -> Option<Seq<char>> {
    match o {
        Some(s) => Some(s@),
        None => None,
    }
}

impl View for XmlAttribute {
    type V = (Seq<char>, Seq<char>);

    open spec fn view(&self) -> (Seq<char>, Seq<char>) {
        (self.name@, self.value@)
    }
}

impl View for XmlNode {
    type V = XmlNodeView;

    open spec fn view(&self) -> XmlNodeView {
        XmlNodeView {
            namespace: view_opt(self.namespace),
            name: self.name@,
            attributes: self.attributes@.map_values(|a: XmlAttribute| a@),
            text: view_opt(self.text),
            children: self.children@,
        }
    }
}

/// The value of the first attribute in `attrs` named `name`.
pub open spec fn first_attribute(attrs: Seq<(Seq<char>, Seq<char>)>, name: Seq<char>) -> Option<
    Seq<char>,
>
    decreases attrs.len(),
{
    if attrs.len() == 0 {
        None
    } else if attrs[0].0 == name {
        Some(attrs[0].1)
    } else {
        first_attribute(attrs.drop_first(), name)
    }
}

/// An attribute lookup gives the value of the first attribute with that
/// name, and nothing exactly when no attribute has the name.
pub proof fn lemma_first_attribute(attrs: Seq<(Seq<char>, Seq<char>)>, name: Seq<char>)
    ensures
        first_attribute(attrs, name) matches Some(v) ==> exists|i: int|
            0 <= i < attrs.len() && (#[trigger] attrs[i]).0 == name && attrs[i].1 == v && forall|j: int|
                0 <= j < i ==> (#[trigger] attrs[j]).0 != name,
        first_attribute(attrs, name) is None ==> forall|i: int|
            0 <= i < attrs.len() ==> (#[trigger] attrs[i]).0 != name,
    decreases attrs.len(),
{
    if attrs.len() > 0 {
        let rest = attrs.drop_first();
        lemma_first_attribute(rest, name);
        if attrs[0].0 == name {
            assert(attrs[0].0 == name);
        } else if let Some(v) = first_attribute(attrs, name) {
            let i = choose|i: int|
                0 <= i < rest.len() && (#[trigger] rest[i]).0 == name && rest[i].1 == v && forall|j: int|
                    0 <= j < i ==> (#[trigger] rest[j]).0 != name;
            assert(attrs[i + 1] == rest[i]);
            assert forall|j: int| 0 <= j < i + 1 implies (#[trigger] attrs[j]).0 != name by {
                if j > 0 {
                    assert(attrs[j] == rest[j - 1]);
                }
            }
        } else {
            assert forall|i: int| 0 <= i < attrs.len() implies (#[trigger] attrs[i]).0 != name by {
                if i > 0 {
                    assert(attrs[i] == rest[i - 1]);
                }
            }
        }
    }
}

impl XmlNodeView {
    /// The value of the node's attribute whose local name is `name`, as
    /// `roxmltree`'s `Node::attribute` gives it for a name without namespace.
    pub open spec fn attribute(self, name: Seq<char>) -> Option<Seq<char>> {
        first_attribute(self.attributes, name)
    }
}

impl XmlDocumentView {
    /// Every child index names a node, and so does the root element.
    pub open spec fn wf(self) -> bool {
        &&& self.root < self.nodes.len()
        &&& forall|i: int, j: int|
            0 <= i < self.nodes.len() && 0 <= j < self.nodes[i].children.len()
                ==> #[trigger] self.nodes[i].children[j] < self.nodes.len()
    }

    /// The `j`-th child of node `i`.
    pub open spec fn child(self, i: int, j: int) -> XmlNodeView {
        self.nodes[self.nodes[i].children[j] as int]
    }

    /// The child nodes of node `i`, in order.
    pub open spec fn children(self, i: int) -> Seq<XmlNodeView> {
        Seq::new(self.nodes[i].children.len(), |j: int| self.child(i, j))
    }
}

/// What `roxmltree::Document::parse` makes of `text`: the document where
/// the text is well-formed XML, nothing where it is not.
pub uninterp spec fn xml_document(text: Seq<char>) -> Option<XmlDocumentView>;

/// The views of a list of nodes.
pub open spec fn nodes_view(nodes: Seq<XmlNode>) -> Seq<XmlNodeView> {
    nodes.map_values(|n: XmlNode| n@)
}

/// Parses `text` with `roxmltree::Document::parse` and lists its nodes as
/// `Document::descendants` walks them, each child given by its `NodeId`,
/// with the index of `Document::root_element`.
/// Trusted: that the list is what the parser made of `text` (named by
/// `xml_document`), and that every `NodeId` is the node's position in that
/// walk, so that all indices name nodes (`roxmltree` numbers its nodes in
/// document order and its descendants are walked in that order).
#[verifier::external_body]
fn parse_nodes(text: &str) -> (res: Result<(Vec<XmlNode>, usize), roxmltree::Error>)
    ensures
        match res {
            Ok((nodes, root)) => {
                &&& xml_document(text@) == Some(XmlDocumentView { nodes: nodes_view(nodes@), root })
                &&& (XmlDocumentView { nodes: nodes_view(nodes@), root }).wf()
            },
            Err(_) => xml_document(text@) is None,
        },
{
    let doc = roxmltree::Document::parse(text)?;
    let nodes = doc.descendants().map(|n| XmlNode {
        namespace: n.tag_name().namespace().map(String::from),
        name: String::from(n.tag_name().name()),
        attributes: n.attributes().map(|a| XmlAttribute {
            name: String::from(a.name()),
            value: String::from(a.value()),
        }).collect(),
        text: n.text().map(String::from),
        children: n.children().map(|c| c.id().get_usize()).collect(),
    }).collect();
    Ok((nodes, doc.root_element().id().get_usize()))
}

/// A parsed XML document.
pub struct XmlDocument {
    nodes: Vec<XmlNode>,
    root: usize,
}

impl View for XmlDocument {
    type V = XmlDocumentView;

    closed spec fn view(&self) -> XmlDocumentView {
        XmlDocumentView { nodes: nodes_view(self.nodes@), root: self.root }
    }
}

impl XmlDocument {
    #[verifier::type_invariant]
    spec fn well_formed(self) -> bool {
        self@.wf()
    }

    /// Parses `text` as XML.
    pub fn parse(text: &str) -> (res: Result<XmlDocument, roxmltree::Error>)
        ensures
            match res {
                Ok(doc) => xml_document(text@) == Some(doc@),
                Err(_) => xml_document(text@) is None,
            },
    {
        let (nodes, root) = parse_nodes(text)?;
        Ok(XmlDocument { nodes, root })
    }

    /// A document made of the given nodes, where every child index and the
    /// root index name a node; `None` where one does not.
    pub fn new(nodes: Vec<XmlNode>, root: usize) -> (res: Option<XmlDocument>)
        ensures
            match res {
                Some(doc) => doc@ == (XmlDocumentView { nodes: nodes_view(nodes@), root }),
                None => !(XmlDocumentView { nodes: nodes_view(nodes@), root }).wf(),
            },
    {
        let ghost v = XmlDocumentView { nodes: nodes_view(nodes@), root };
        if root >= nodes.len() {
            return None;
        }
        let mut i: usize = 0;
        while i < nodes.len()
            invariant
                v == (XmlDocumentView { nodes: nodes_view(nodes@), root }),
                i <= nodes.len(),
                forall|a: int, b: int|
                    0 <= a < i && 0 <= b < v.nodes[a].children.len()
                        ==> #[trigger] v.nodes[a].children[b] < v.nodes.len(),
            decreases nodes.len() - i,
        {
            let mut j: usize = 0;
            while j < nodes[i].children.len()
                invariant
                    v == (XmlDocumentView { nodes: nodes_view(nodes@), root }),
                    i < nodes.len(),
                    j <= nodes[i as int].children.len(),
                    forall|a: int, b: int|
                        0 <= a < i && 0 <= b < v.nodes[a].children.len()
                            ==> #[trigger] v.nodes[a].children[b] < v.nodes.len(),
                    forall|b: int|
                        0 <= b < j ==> #[trigger] v.nodes[i as int].children[b] < v.nodes.len(),
                decreases nodes[i as int].children.len() - j,
            {
                if nodes[i].children[j] >= nodes.len() {
                    assert(v.nodes[i as int].children[j as int] >= v.nodes.len());
                    return None;
                }
                j = j + 1;
            }
            i = i + 1;
        }
        Some(XmlDocument { nodes, root })
    }

    /// The number of nodes.
    pub fn len(&self) -> (res: usize)
        ensures
            res == self@.nodes.len(),
            self@.wf(),
    {
        proof {
            use_type_invariant(self);
        }
        self.nodes.len()
    }

    /// The index of the root element.
    pub fn root_element(&self) -> (res: usize)
        ensures
            res == self@.root,
            self@.wf(),
    {
        proof {
            use_type_invariant(self);
        }
        self.root
    }

    /// The node at index `i`.
    pub fn node(&self, i: usize) -> (res: &XmlNode)
        requires
            i < self@.nodes.len(),
        ensures
            res@ == self@.nodes[i as int],
            self@.wf(),
    {
        proof {
            use_type_invariant(self);
        }
        &self.nodes[i]
    }
}

impl XmlNode {
    /// Whether the node's local name is `name`.
    pub fn has_name(&self, name: &str) -> (res: bool)
        ensures
            res == (self@.name == name@),
    {
        str_is(self.name.as_str(), name)
    }

    /// The node's text.
    pub fn text(&self) -> (res: Option<String>)
        ensures
            view_opt(res) == self@.text,
    {
        match &self.text {
            Some(t) => Some(t.clone()),
            None => None,
        }
    }

    /// The value of the attribute with local name `name`, whatever its
    /// namespace (`Node::attribute` with a plain name).
    pub fn attribute(&self, name: &str) -> (res: Option<String>)
        ensures
            view_opt(res) == self@.attribute(name@),
    {
        let attrs = &self.attributes;
        let ghost s = self@.attributes;
        let mut i: usize = 0;
        assert(s.subrange(0, s.len() as int) =~= s);
        while i < attrs.len()
            invariant
                s == attrs@.map_values(|a: XmlAttribute| a@),
                s == self@.attributes,
                i <= attrs.len(),
                first_attribute(s, name@) == first_attribute(
                    s.subrange(i as int, s.len() as int),
                    name@,
                ),
            decreases attrs.len() - i,
        {
            assert(s.subrange(i as int, s.len() as int).drop_first() =~= s.subrange(
                i + 1,
                s.len() as int,
            ));
            assert(s[i as int] == attrs[i as int]@);
            if str_is(attrs[i].name.as_str(), name) {
                let v = attrs[i].value.clone();
                assert(s.subrange(i as int, s.len() as int)[0] == s[i as int]);
                return Some(v);
            }
            i = i + 1;
        }
        None
    }
}

} // verus!
