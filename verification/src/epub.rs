//! A book: its package document read into metadata, spine and resources.

use vstd::prelude::*;
use vstd::hash_map::StringHashMap;

use crate::archive::{entry_bytes, entry_text, spec_entry_bytes, spec_entry_text};
use crate::error::{EpubError, EpubErrorKind, EpubResult};
use crate::media_type::{spec_media_type, MediaType, MediaTypeView};
use crate::text::{dir_prefix, spec_dir_prefix, spec_trim, str_is, trim};
use crate::xml::{view_opt, xml_document, XmlDocument, XmlDocumentView, XmlNodeView};

verus! {

/// The views of a list of strings.
pub open spec fn strings_view(v: Seq<String>) -> Seq<Seq<char>> {
    v.map_values(|s: String| s@)
}

/// The metadata that a book's package document gives.
#[derive(Debug)]
pub struct EpubMetadata {
    pub title: Option<String>,
    pub authors: Vec<String>,
    pub language: Option<String>,
}

/// The mathematical value of `EpubMetadata`.
pub ghost struct EpubMetadataView {
    pub title: Option<Seq<char>>,
    pub authors: Seq<Seq<char>>,
    pub language: Option<Seq<char>>,
}

impl View for EpubMetadata {
    type V = EpubMetadataView;

    open spec fn view(&self) -> EpubMetadataView {
        EpubMetadataView {
            title: view_opt(self.title),
            authors: strings_view(self.authors@),
            language: view_opt(self.language),
        }
    }
}

/// Metadata with nothing in it.
pub open spec fn empty_metadata() -> EpubMetadataView {
    EpubMetadataView { title: None, authors: Seq::empty(), language: None }
}

/// What one child of the `metadata` element adds: a `title` or `language`
/// element sets that field to its text (absent where it has none), a
/// `creator` element with text adds an author.
pub open spec fn metadata_step(m: EpubMetadataView, c: XmlNodeView) -> EpubMetadataView {
    if c.name == "title"@ {
        EpubMetadataView { title: c.text, ..m }
    } else if c.name == "creator"@ {
        match c.text {
            Some(t) => EpubMetadataView { authors: m.authors.push(t), ..m },
            None => m,
        }
    } else if c.name == "language"@ {
        EpubMetadataView { language: c.text, ..m }
    } else {
        m
    }
}

/// The metadata read from the first `k` children of node `node`.
pub open spec fn metadata_prefix(doc: XmlDocumentView, node: int, k: int) -> EpubMetadataView
    decreases k,
{
    if k <= 0 {
        empty_metadata()
    } else {
        metadata_step(metadata_prefix(doc, node, k - 1), doc.child(node, k - 1))
    }
}

/// The metadata read from the children of node `node`.
pub open spec fn spec_epub_metadata(doc: XmlDocumentView, node: int) -> EpubMetadataView {
    metadata_prefix(doc, node, doc.nodes[node].children.len() as int)
}

impl EpubMetadata {
    /// Metadata with nothing in it.
    pub fn new() -> (res: EpubMetadata)
        ensures
            res@ == empty_metadata(),
    {
        let res = EpubMetadata { title: None, authors: Vec::new(), language: None };
        assert(res@.authors =~= Seq::<Seq<char>>::empty());
        res
    }

    /// Reads the metadata from the children of the `metadata` element at
    /// index `node` of `doc`.
    pub fn from_xml(doc: &XmlDocument, node: usize) -> (res: EpubMetadata)
        requires
            node < doc@.nodes.len(),
        ensures
            res@ == spec_epub_metadata(doc@, node as int),
    {
        let n = doc.node(node);
        let mut res = EpubMetadata::new();
        let mut i: usize = 0;
        while i < n.children.len()
            invariant
                doc@.wf(),
                node < doc@.nodes.len(),
                n@ == doc@.nodes[node as int],
                i <= n.children.len(),
                res@ == metadata_prefix(doc@, node as int, i as int),
            decreases n.children.len() - i,
        {
            let c = doc.node(n.children[i]);
            let ghost before = res@;
            if c.has_name("title") {
                res.title = c.text();
            } else if c.has_name("creator") {
                if let Some(t) = c.text() {
                    res.authors.push(t);
                    assert(strings_view(res.authors@) =~= before.authors.push(t@));
                }
            } else if c.has_name("language") {
                res.language = c.text();
            }
            i = i + 1;
        }
        res
    }
}

/// The texts of the nodes named `name` that have text, in order.
pub open spec fn texts_named(nodes: Seq<XmlNodeView>, name: Seq<char>) -> Seq<Seq<char>> {
    nodes.filter_map(|c: XmlNodeView| if c.name == name { c.text } else { None })
}

/// The texts (present or absent) of the nodes named `name`, in order.
pub open spec fn optional_texts_named(nodes: Seq<XmlNodeView>, name: Seq<char>) -> Seq<Option<Seq<char>>> {
    nodes.filter_map(|c: XmlNodeView| if c.name == name { Some(c.text) } else { None })
}

/// The last of a list of optional values; absent where the list is empty.
pub open spec fn last_or_none(values: Seq<Option<Seq<char>>>) -> Option<Seq<char>> {
    if values.len() == 0 {
        None
    } else {
        values.last()
    }
}

proof fn lemma_metadata_prefix_fields(doc: XmlDocumentView, node: int, k: int)
    requires
        0 <= k <= doc.nodes[node].children.len(),
    ensures
        ({
            let m = metadata_prefix(doc, node, k);
            let cs = doc.children(node).take(k);
            &&& m.authors == texts_named(cs, "creator"@)
            &&& m.title == last_or_none(optional_texts_named(cs, "title"@))
            &&& m.language == last_or_none(optional_texts_named(cs, "language"@))
        }),
    decreases k,
{
    if k == 0 {
        assert(doc.children(node).take(0) =~= Seq::<XmlNodeView>::empty());
    } else {
        lemma_metadata_prefix_fields(doc, node, k - 1);
        lemma_metadata_names_differ();
        let cs = doc.children(node).take(k);
        assert(cs.drop_last() =~= doc.children(node).take(k - 1));
        assert(cs.last() == doc.child(node, k - 1));
    }
}

/// The names of the elements that the metadata is read from differ.
proof fn lemma_metadata_names_differ()
    ensures
        "title"@.len() == 5,
        "creator"@.len() == 7,
        "language"@.len() == 8,
{
    reveal_strlit("title");
    reveal_strlit("creator");
    reveal_strlit("language");
}

/// The metadata read from a `metadata` element: the authors are the texts
/// of its `creator` children that have text, in order, and nothing else;
/// the title and the language are the text (or its absence) of the last
/// `title` and `language` child, absent where there is none.
pub proof fn lemma_epub_metadata_fields(doc: XmlDocumentView, node: int)
    ensures
        ({
            let m = spec_epub_metadata(doc, node);
            &&& m.authors == texts_named(doc.children(node), "creator"@)
            &&& m.title == last_or_none(optional_texts_named(doc.children(node), "title"@))
            &&& m.language == last_or_none(optional_texts_named(doc.children(node), "language"@))
        }),
{
    let n = doc.nodes[node].children.len() as int;
    lemma_metadata_prefix_fields(doc, node, n);
    assert(doc.children(node).take(n) =~= doc.children(node));
}

impl Default for EpubMetadata {
    fn default() -> (res: EpubMetadata)
        ensures
            res@ == empty_metadata(),
    {
        EpubMetadata::new()
    }
}

/// The spine read from the first `k` children of node `node`: the `idref`
/// of each `itemref` element, or the error of the first one without it.
pub open spec fn spine_prefix(doc: XmlDocumentView, node: int, k: int) -> Result<
    Seq<Seq<char>>,
    EpubErrorKind,
>
    decreases k,
{
    if k <= 0 {
        Ok(Seq::empty())
    } else {
        match spine_prefix(doc, node, k - 1) {
            Err(e) => Err(e),
            Ok(ids) => {
                let c = doc.child(node, k - 1);
                if c.name == "itemref"@ {
                    match c.attribute("idref"@) {
                        Some(id) => Ok(ids.push(id)),
                        None => Err(EpubErrorKind::MissingAttribute("idref"@, "spine item"@)),
                    }
                } else {
                    Ok(ids)
                }
            },
        }
    }
}

proof fn lemma_spine_error_stays(doc: XmlDocumentView, node: int, k: int, m: int)
    requires
        0 <= k <= m,
        spine_prefix(doc, node, k) is Err,
    ensures
        spine_prefix(doc, node, m) == spine_prefix(doc, node, k),
    decreases m - k,
{
    if k < m {
        lemma_spine_error_stays(doc, node, k, m - 1);
    }
}

/// The spine read from the children of the `spine` element `node`.
pub open spec fn spec_spine(doc: XmlDocumentView, node: int) -> Result<
    Seq<Seq<char>>,
    EpubErrorKind,
> {
    spine_prefix(doc, node, doc.nodes[node].children.len() as int)
}

/// The children named `itemref`, in order.
pub open spec fn itemrefs(nodes: Seq<XmlNodeView>) -> Seq<XmlNodeView> {
    nodes.filter_map(|c: XmlNodeView| if c.name == "itemref"@ { Some(c) } else { None })
}

/// What the spine read from nodes `cs` is, in terms of their `itemref`s.
pub open spec fn spine_lists(result: Result<Seq<Seq<char>>, EpubErrorKind>, cs: Seq<XmlNodeView>) -> bool {
    let r = itemrefs(cs);
    &&& result is Ok <==> forall|i: int| 0 <= i < r.len() ==> (#[trigger] r[i]).attribute("idref"@) is Some
    &&& result matches Ok(ids) ==> {
        &&& ids.len() == r.len()
        &&& forall|i: int| 0 <= i < r.len() ==> #[trigger] ids[i] == r[i].attribute("idref"@)->0
    }
    &&& result matches Err(e) ==> e == EpubErrorKind::MissingAttribute("idref"@, "spine item"@)
}

proof fn lemma_spine_prefix_lists(doc: XmlDocumentView, node: int, k: int)
    requires
        0 <= k <= doc.nodes[node].children.len(),
    ensures
        spine_lists(spine_prefix(doc, node, k), doc.children(node).take(k)),
    decreases k,
{
    if k == 0 {
        assert(doc.children(node).take(0) =~= Seq::<XmlNodeView>::empty());
    } else {
        lemma_spine_prefix_lists(doc, node, k - 1);
        let prev = doc.children(node).take(k - 1);
        let c = doc.child(node, k - 1);
        let cs = doc.children(node).take(k);
        assert(cs =~= prev.push(c));
        assert(cs.drop_last() =~= prev);
        let r0 = itemrefs(prev);
        let r = itemrefs(cs);
        if c.name == "itemref"@ {
            assert(r =~= r0.push(c));
            match spine_prefix(doc, node, k - 1) {
                Ok(ids) => {
                    if c.attribute("idref"@) is Some {
                        let ids2 = ids.push(c.attribute("idref"@)->0);
                        assert forall|i: int| 0 <= i < r.len() implies #[trigger] ids2[i] == r[i].attribute("idref"@)->0 by {
                            if i < r0.len() {
                                assert(ids2[i] == ids[i]);
                                assert(r[i] == r0[i]);
                            }
                        }
                        assert forall|i: int| 0 <= i < r.len() implies (#[trigger] r[i]).attribute("idref"@) is Some by {
                            if i < r0.len() {
                                assert(r[i] == r0[i]);
                            }
                        }
                    } else {
                        assert(r[r.len() - 1] == c);
                    }
                },
                Err(_) => {
                    let i0 = choose|i: int| 0 <= i < r0.len() && !((#[trigger] r0[i]).attribute("idref"@) is Some);
                    assert(r[i0] == r0[i0]);
                },
            }
        } else {
            assert(r =~= r0);
        }
    }
}

/// The spine read from a `spine` element is the list of the `idref`s of
/// its `itemref` children, all of them and in order, wherever among the
/// children they stand; it is refused, with the missing `idref` of a spine
/// item, exactly when one of those children has no `idref`.
pub proof fn lemma_spine_lists_itemrefs(doc: XmlDocumentView, node: int)
    ensures
        spine_lists(spec_spine(doc, node), doc.children(node)),
{
    let n = doc.nodes[node].children.len() as int;
    lemma_spine_prefix_lists(doc, node, n);
    assert(doc.children(node).take(n) =~= doc.children(node));
}

/// Reads the spine: the `idref` of each `itemref` child of the `spine`
/// element at index `node`, in order.
pub fn read_spine(doc: &XmlDocument, node: usize) -> (res: EpubResult<Vec<String>>)
    requires
        node < doc@.nodes.len(),
    ensures
        match res {
            Ok(ids) => spec_spine(doc@, node as int) == Ok::<_, EpubErrorKind>(strings_view(ids@)),
            Err(e) => spec_spine(doc@, node as int) == Err::<Seq<Seq<char>>, _>(e@),
        },
{
    let n = doc.node(node);
    let mut res: Vec<String> = Vec::new();
    let mut i: usize = 0;
    assert(strings_view(res@) =~= Seq::<Seq<char>>::empty());
    while i < n.children.len()
        invariant
            doc@.wf(),
            node < doc@.nodes.len(),
            n@ == doc@.nodes[node as int],
            i <= n.children.len(),
            spine_prefix(doc@, node as int, i as int) == Ok::<_, EpubErrorKind>(strings_view(res@)),
        decreases n.children.len() - i,
    {
        let c = doc.node(n.children[i]);
        if c.has_name("itemref") {
            match c.attribute("idref") {
                Some(id) => {
                    let ghost before = strings_view(res@);
                    res.push(id);
                    assert(strings_view(res@) =~= before.push(id@));
                },
                None => {
                    proof {
                        lemma_spine_error_stays(doc@, node as int, i + 1, n@.children.len() as int);
                    }
                    return Err(EpubError::MissingAttribute { attr: "idref", loc: "spine item" });
                },
            }
        }
        i = i + 1;
    }
    Ok(res)
}

/// The `full-path` of the first `rootfile` element at index `k` or after
/// that has one, in document order.
pub open spec fn root_path_from(doc: XmlDocumentView, k: int) -> Option<Seq<char>>
    decreases doc.nodes.len() - k,
{
    if k < 0 || k >= doc.nodes.len() {
        None
    } else if doc.nodes[k].name == "rootfile"@ && doc.nodes[k].attribute("full-path"@) is Some {
        doc.nodes[k].attribute("full-path"@)
    } else {
        root_path_from(doc, k + 1)
    }
}

/// The path of the package document that the container document names.
pub open spec fn spec_root_path(doc: XmlDocumentView) -> Option<Seq<char>> {
    root_path_from(doc, 0)
}

/// Finds the path of the package document in the container document: the
/// `full-path` of the first `rootfile` element that has one.
pub fn extract_root_path(container: &XmlDocument) -> (res: EpubResult<String>)
    ensures
        match res {
            Ok(path) => spec_root_path(container@) == Some(path@),
            Err(e) => spec_root_path(container@) is None && e@ == EpubErrorKind::PackageNotFound,
        },
{
    let len = container.len();
    let mut k: usize = 0;
    while k < len
        invariant
            len == container@.nodes.len(),
            k <= len,
            spec_root_path(container@) == root_path_from(container@, k as int),
        decreases len - k,
    {
        let node = container.node(k);
        if node.has_name("rootfile") {
            if let Some(path) = node.attribute("full-path") {
                return Ok(path);
            }
        }
        k = k + 1;
    }
    Err(EpubError::PackageNotFound)
}

/// A resource of a book: its media type and its bytes.
#[derive(Debug)]
pub struct EpubResource {
    pub media_type: MediaType,
    pub content: Vec<u8>,
}

/// The mathematical value of a resource.
pub ghost struct ResourceView {
    pub media_type: MediaTypeView,
    pub content: Seq<u8>,
}

impl View for EpubResource {
    type V = ResourceView;

    open spec fn view(&self) -> ResourceView {
        ResourceView { media_type: self.media_type@, content: self.content@ }
    }
}

/// The views of the resources of a map.
pub open spec fn resources_view(m: Map<Seq<char>, EpubResource>) -> Map<Seq<char>, ResourceView> {
    m.map_values(|r: EpubResource| r@)
}

/// The resources read from the first `k` children of the `manifest`
/// element `node`: for each `item` element, its `href`, `id` and
/// `media-type` (the first missing one is the error), and the entry at the
/// base path followed by the `href`, stored under the `id`; a later item
/// with the same `id` replaces an earlier one.
pub open spec fn manifest_prefix(
    archive: Seq<u8>,
    doc: XmlDocumentView,
    node: int,
    base: Seq<char>,
    k: int,
) -> Result<Map<Seq<char>, ResourceView>, EpubErrorKind>
    decreases k,
{
    if k <= 0 {
        Ok(Map::empty())
    } else {
        match manifest_prefix(archive, doc, node, base, k - 1) {
            Err(e) => Err(e),
            Ok(m) => {
                let c = doc.child(node, k - 1);
                if c.name == "item"@ {
                    match c.attribute("href"@) {
                        None => Err(EpubErrorKind::MissingAttribute("href"@, "manifest item"@)),
                        Some(href) => match c.attribute("id"@) {
                            None => Err(EpubErrorKind::MissingAttribute("id"@, "manifest item"@)),
                            Some(id) => match c.attribute("media-type"@) {
                                None => Err(
                                    EpubErrorKind::MissingAttribute("media-type"@, "manifest item"@),
                                ),
                                Some(media_type) => match spec_entry_bytes(archive, base + href) {
                                    Err(e) => Err(e),
                                    Ok(bytes) => Ok(
                                        m.insert(
                                            id,
                                            ResourceView {
                                                media_type: spec_media_type(media_type),
                                                content: bytes,
                                            },
                                        ),
                                    ),
                                },
                            },
                        },
                    }
                } else {
                    Ok(m)
                }
            },
        }
    }
}

proof fn lemma_manifest_error_stays(
    archive: Seq<u8>,
    doc: XmlDocumentView,
    node: int,
    base: Seq<char>,
    k: int,
    m: int,
)
    requires
        0 <= k <= m,
        manifest_prefix(archive, doc, node, base, k) is Err,
    ensures
        manifest_prefix(archive, doc, node, base, m) == manifest_prefix(archive, doc, node, base, k),
    decreases m - k,
{
    if k < m {
        lemma_manifest_error_stays(archive, doc, node, base, k, m - 1);
    }
}

/// Whether child `k` of node `node` is an `item` element with id `id`.
pub open spec fn is_item_with_id(doc: XmlDocumentView, node: int, k: int, id: Seq<char>) -> bool {
    doc.child(node, k).name == "item"@ && doc.child(node, k).attribute("id"@) == Some(id)
}

proof fn lemma_manifest_prefix_ok(
    archive: Seq<u8>,
    doc: XmlDocumentView,
    node: int,
    base: Seq<char>,
    k: int,
    m: int,
)
    requires
        0 <= k <= m,
        manifest_prefix(archive, doc, node, base, m) is Ok,
    ensures
        manifest_prefix(archive, doc, node, base, k) is Ok,
{
    if manifest_prefix(archive, doc, node, base, k) is Err {
        lemma_manifest_error_stays(archive, doc, node, base, k, m);
    }
}

proof fn lemma_manifest_keys(
    archive: Seq<u8>,
    doc: XmlDocumentView,
    node: int,
    base: Seq<char>,
    k: int,
    id: Seq<char>,
)
    requires
        k >= 0,
        manifest_prefix(archive, doc, node, base, k) is Ok,
        manifest_prefix(archive, doc, node, base, k)->Ok_0.contains_key(id),
    ensures
        exists|j: int| 0 <= j < k && #[trigger] is_item_with_id(doc, node, j, id),
    decreases k,
{
    if k > 0 {
        lemma_manifest_prefix_ok(archive, doc, node, base, k - 1, k);
        if manifest_prefix(archive, doc, node, base, k - 1)->Ok_0.contains_key(id) {
            lemma_manifest_keys(archive, doc, node, base, k - 1, id);
            let j = choose|j: int| 0 <= j < k - 1 && #[trigger] is_item_with_id(doc, node, j, id);
            assert(is_item_with_id(doc, node, j, id));
        } else {
            assert(is_item_with_id(doc, node, k - 1, id));
        }
    }
}

proof fn lemma_manifest_last_wins(
    archive: Seq<u8>,
    doc: XmlDocumentView,
    node: int,
    base: Seq<char>,
    j: int,
    k: int,
    id: Seq<char>,
    href: Seq<char>,
    media_type: Seq<char>,
)
    requires
        0 <= j < k,
        manifest_prefix(archive, doc, node, base, k) is Ok,
        is_item_with_id(doc, node, j, id),
        doc.child(node, j).attribute("href"@) == Some(href),
        doc.child(node, j).attribute("media-type"@) == Some(media_type),
        forall|l: int| j < l < k ==> !#[trigger] is_item_with_id(doc, node, l, id),
    ensures
        spec_entry_bytes(archive, base + href) is Ok,
        manifest_prefix(archive, doc, node, base, k)->Ok_0.contains_key(id),
        manifest_prefix(archive, doc, node, base, k)->Ok_0[id] == (ResourceView {
            media_type: spec_media_type(media_type),
            content: spec_entry_bytes(archive, base + href)->Ok_0,
        }),
    decreases k,
{
    lemma_manifest_prefix_ok(archive, doc, node, base, k - 1, k);
    if j < k - 1 {
        lemma_manifest_last_wins(archive, doc, node, base, j, k - 1, id, href, media_type);
        assert(!is_item_with_id(doc, node, k - 1, id));
    }
}

/// Reading a manifest stores under each id the resource of the last `item`
/// with that id, read from the entry at the base path followed by that
/// item's `href`; and it stores nothing under an id that no `item` has.
pub proof fn lemma_manifest_lookup(
    archive: Seq<u8>,
    doc: XmlDocumentView,
    node: int,
    base: Seq<char>,
    id: Seq<char>,
)
    requires
        spec_manifest(archive, doc, node, base) is Ok,
    ensures
        ({
            let m = spec_manifest(archive, doc, node, base)->Ok_0;
            let n = doc.nodes[node].children.len() as int;
            &&& m.contains_key(id) ==> exists|j: int| 0 <= j < n && #[trigger] is_item_with_id(doc, node, j, id)
            &&& forall|j: int|
                0 <= j < n && #[trigger] is_item_with_id(doc, node, j, id) && (forall|l: int|
                    j < l < n ==> !#[trigger] is_item_with_id(doc, node, l, id)) ==> {
                    let c = doc.child(node, j);
                    &&& m.contains_key(id)
                    &&& m[id] == (ResourceView {
                        media_type: spec_media_type(c.attribute("media-type"@)->0),
                        content: spec_entry_bytes(archive, base + c.attribute("href"@)->0)->Ok_0,
                    })
                }
        }),
{
    let n = doc.nodes[node].children.len() as int;
    if spec_manifest(archive, doc, node, base)->Ok_0.contains_key(id) {
        lemma_manifest_keys(archive, doc, node, base, n, id);
    }
    assert forall|j: int|
        0 <= j < n && #[trigger] is_item_with_id(doc, node, j, id) && (forall|l: int|
            j < l < n ==> !#[trigger] is_item_with_id(doc, node, l, id)) implies {
        let c = doc.child(node, j);
        &&& spec_manifest(archive, doc, node, base)->Ok_0.contains_key(id)
        &&& spec_manifest(archive, doc, node, base)->Ok_0[id] == (ResourceView {
            media_type: spec_media_type(c.attribute("media-type"@)->0),
            content: spec_entry_bytes(archive, base + c.attribute("href"@)->0)->Ok_0,
        })
    } by {
        lemma_manifest_prefix_ok(archive, doc, node, base, j, n);
        lemma_manifest_prefix_ok(archive, doc, node, base, j + 1, n);
        let c = doc.child(node, j);
        assert(c.attribute("href"@) is Some);
        assert(c.attribute("media-type"@) is Some);
        lemma_manifest_last_wins(
            archive,
            doc,
            node,
            base,
            j,
            n,
            id,
            c.attribute("href"@)->0,
            c.attribute("media-type"@)->0,
        );
    }
}

/// Whether child `k` of node `node`, where it is an `item`, has its `href`,
/// `id` and `media-type` and names an entry that reads whole.
pub open spec fn item_readable(archive: Seq<u8>, doc: XmlDocumentView, node: int, base: Seq<char>, k: int) -> bool {
    let c = doc.child(node, k);
    c.name == "item"@ ==> {
        &&& c.attribute("href"@) is Some
        &&& c.attribute("id"@) is Some
        &&& c.attribute("media-type"@) is Some
        &&& spec_entry_bytes(archive, base + c.attribute("href"@)->0) is Ok
    }
}

proof fn lemma_manifest_prefix_ok_iff(archive: Seq<u8>, doc: XmlDocumentView, node: int, base: Seq<char>, k: int)
    requires
        0 <= k,
    ensures
        manifest_prefix(archive, doc, node, base, k) is Ok <==> forall|j: int|
            0 <= j < k ==> #[trigger] item_readable(archive, doc, node, base, j),
    decreases k,
{
    if k > 0 {
        lemma_manifest_prefix_ok_iff(archive, doc, node, base, k - 1);
        if !item_readable(archive, doc, node, base, k - 1) {
            assert(!(forall|j: int| 0 <= j < k ==> #[trigger] item_readable(archive, doc, node, base, j)));
        }
        if manifest_prefix(archive, doc, node, base, k - 1) is Err {
            let j0 = choose|j: int| 0 <= j < k - 1 && !#[trigger] item_readable(archive, doc, node, base, j);
            assert(!item_readable(archive, doc, node, base, j0));
        }
    }
}

/// A manifest reads without error exactly when each of its `item` children
/// has an `href`, an `id` and a `media-type`, and the entry at the base
/// path followed by its `href` reads whole.
pub proof fn lemma_manifest_ok(archive: Seq<u8>, doc: XmlDocumentView, node: int, base: Seq<char>)
    ensures
        spec_manifest(archive, doc, node, base) is Ok <==> forall|j: int|
            0 <= j < doc.nodes[node].children.len() ==> #[trigger] item_readable(archive, doc, node, base, j),
{
    lemma_manifest_prefix_ok_iff(archive, doc, node, base, doc.nodes[node].children.len() as int);
}

/// The resources read from the children of the `manifest` element `node`.
pub open spec fn spec_manifest(
    archive: Seq<u8>,
    doc: XmlDocumentView,
    node: int,
    base: Seq<char>,
) -> Result<Map<Seq<char>, ResourceView>, EpubErrorKind> {
    manifest_prefix(archive, doc, node, base, doc.nodes[node].children.len() as int)
}

/// Reads the resources that the `manifest` element at index `node` lists,
/// each from the archive entry at `base_path` followed by its `href`.
pub fn read_manifest(archive: &[u8], doc: &XmlDocument, node: usize, base_path: &str) -> (res:
    EpubResult<StringHashMap<EpubResource>>)
    requires
        node < doc@.nodes.len(),
    ensures
        match res {
            Ok(m) => spec_manifest(archive@, doc@, node as int, base_path@) == Ok::<
                _,
                EpubErrorKind,
            >(resources_view(m@)),
            Err(e) => spec_manifest(archive@, doc@, node as int, base_path@) == Err::<
                Map<Seq<char>, ResourceView>,
                _,
            >(e@),
        },
{
    let n = doc.node(node);
    let mut res: StringHashMap<EpubResource> = StringHashMap::new();
    assert(resources_view(res@) =~= Map::<Seq<char>, ResourceView>::empty());
    let mut i: usize = 0;
    while i < n.children.len()
        invariant
            doc@.wf(),
            node < doc@.nodes.len(),
            n@ == doc@.nodes[node as int],
            i <= n.children.len(),
            manifest_prefix(archive@, doc@, node as int, base_path@, i as int) == Ok::<
                _,
                EpubErrorKind,
            >(resources_view(res@)),
        decreases n.children.len() - i,
    {
        let c = doc.node(n.children[i]);
        if c.has_name("item") {
            let href = match c.attribute("href") {
                Some(v) => v,
                None => {
                    proof {
                        lemma_manifest_error_stays(archive@, doc@, node as int, base_path@, i + 1, n@.children.len() as int);
                    }
                    return Err(EpubError::MissingAttribute { attr: "href", loc: "manifest item" });
                },
            };
            let id = match c.attribute("id") {
                Some(v) => v,
                None => {
                    proof {
                        lemma_manifest_error_stays(archive@, doc@, node as int, base_path@, i + 1, n@.children.len() as int);
                    }
                    return Err(EpubError::MissingAttribute { attr: "id", loc: "manifest item" });
                },
            };
            let media_type = match c.attribute("media-type") {
                Some(v) => v,
                None => {
                    proof {
                        lemma_manifest_error_stays(archive@, doc@, node as int, base_path@, i + 1, n@.children.len() as int);
                    }
                    return Err(
                        EpubError::MissingAttribute { attr: "media-type", loc: "manifest item" },
                    );
                },
            };
            let mut path = base_path.to_owned();
            path.append(href.as_str());
            let content = match entry_bytes(archive, path.as_str()) {
                Ok(bytes) => bytes,
                Err(e) => {
                    proof {
                        lemma_manifest_error_stays(archive@, doc@, node as int, base_path@, i + 1, n@.children.len() as int);
                    }
                    return Err(e);
                },
            };
            let resource = EpubResource { media_type: MediaType::from_name(media_type.as_str()), content };
            let ghost before = res@;
            res.insert(id, resource);
            assert(resources_view(res@) =~= resources_view(before).insert(id@, resource@));
        }
        i = i + 1;
    }
    Ok(res)
}

/// A book read from its archive.
pub struct EpubBook {
    pub metadata: EpubMetadata,
    pub spine: Vec<String>,
    resources: StringHashMap<EpubResource>,
}

/// The mathematical value of a book.
pub ghost struct EpubBookView {
    pub metadata: EpubMetadataView,
    pub spine: Seq<Seq<char>>,
    pub resources: Map<Seq<char>, ResourceView>,
}

impl View for EpubBook {
    type V = EpubBookView;

    closed spec fn view(&self) -> EpubBookView {
        EpubBookView {
            metadata: self.metadata@,
            spine: strings_view(self.spine@),
            resources: resources_view(self.resources@),
        }
    }
}

/// A book with nothing read into it yet.
pub open spec fn empty_book() -> EpubBookView {
    EpubBookView { metadata: empty_metadata(), spine: Seq::empty(), resources: Map::empty() }
}

/// What one child `c` of the package's root element does to the book read
/// so far: `metadata` replaces the metadata, `manifest` the resources and
/// `spine` the spine; the errors of reading them are the book's errors.
pub open spec fn book_step(
    archive: Seq<u8>,
    doc: XmlDocumentView,
    base: Seq<char>,
    acc: EpubBookView,
    c: int,
) -> Result<EpubBookView, EpubErrorKind> {
    if doc.nodes[c].name == "metadata"@ {
        Ok(EpubBookView { metadata: spec_epub_metadata(doc, c), ..acc })
    } else if doc.nodes[c].name == "manifest"@ {
        match spec_manifest(archive, doc, c, base) {
            Err(e) => Err(e),
            Ok(m) => Ok(EpubBookView { resources: m, ..acc }),
        }
    } else if doc.nodes[c].name == "spine"@ {
        match spec_spine(doc, c) {
            Err(e) => Err(e),
            Ok(ids) => Ok(EpubBookView { spine: ids, ..acc }),
        }
    } else {
        Ok(acc)
    }
}

/// The book read from the first `k` children of the package's root element.
pub open spec fn book_prefix(archive: Seq<u8>, doc: XmlDocumentView, base: Seq<char>, k: int) -> Result<
    EpubBookView,
    EpubErrorKind,
>
    decreases k,
{
    if k <= 0 {
        Ok(empty_book())
    } else {
        match book_prefix(archive, doc, base, k - 1) {
            Err(e) => Err(e),
            Ok(b) => book_step(archive, doc, base, b, doc.nodes[doc.root as int].children[k - 1] as int),
        }
    }
}

proof fn lemma_book_error_stays(archive: Seq<u8>, doc: XmlDocumentView, base: Seq<char>, k: int, m: int)
    requires
        0 <= k <= m,
        book_prefix(archive, doc, base, k) is Err,
    ensures
        book_prefix(archive, doc, base, m) == book_prefix(archive, doc, base, k),
    decreases m - k,
{
    if k < m {
        lemma_book_error_stays(archive, doc, base, k, m - 1);
    }
}

/// The book that the package document `doc` describes, its resources read
/// from `archive` relative to `base`.
pub open spec fn spec_package(archive: Seq<u8>, doc: XmlDocumentView, base: Seq<char>) -> Result<
    EpubBookView,
    EpubErrorKind,
> {
    book_prefix(archive, doc, base, doc.nodes[doc.root as int].children.len() as int)
}

/// The children among `ks` whose element is named `name`, in order.
pub open spec fn named_children(doc: XmlDocumentView, ks: Seq<usize>, name: Seq<char>) -> Seq<usize> {
    ks.filter_map(|c: usize| if doc.nodes[c as int].name == name { Some(c) } else { None })
}

/// Every `manifest` and `spine` element among `ks` reads without error.
pub open spec fn parts_readable(archive: Seq<u8>, doc: XmlDocumentView, base: Seq<char>, ks: Seq<usize>) -> bool {
    let fs = named_children(doc, ks, "manifest"@);
    let ss = named_children(doc, ks, "spine"@);
    &&& forall|i: int| 0 <= i < fs.len() ==> spec_manifest(archive, doc, #[trigger] fs[i] as int, base) is Ok
    &&& forall|i: int| 0 <= i < ss.len() ==> spec_spine(doc, #[trigger] ss[i] as int) is Ok
}

/// The book takes its metadata, resources and spine each from the last
/// element of that name among `ks`, and has none of them where there is no
/// such element.
pub open spec fn package_fields(
    archive: Seq<u8>,
    doc: XmlDocumentView,
    base: Seq<char>,
    ks: Seq<usize>,
    b: EpubBookView,
) -> bool {
    let ms = named_children(doc, ks, "metadata"@);
    let fs = named_children(doc, ks, "manifest"@);
    let ss = named_children(doc, ks, "spine"@);
    &&& b.metadata == (if ms.len() == 0 {
        empty_metadata()
    } else {
        spec_epub_metadata(doc, ms.last() as int)
    })
    &&& b.resources == (if fs.len() == 0 {
        Map::empty()
    } else {
        spec_manifest(archive, doc, fs.last() as int, base)->Ok_0
    })
    &&& b.spine == (if ss.len() == 0 {
        Seq::empty()
    } else {
        spec_spine(doc, ss.last() as int)->Ok_0
    })
}

/// The names of the parts of a package differ.
proof fn lemma_part_names_differ()
    ensures
        "metadata"@.len() == 8 && "metadata"@[2] == 't',
        "manifest"@.len() == 8 && "manifest"@[2] == 'n',
        "spine"@.len() == 5,
{
    reveal_strlit("metadata");
    reveal_strlit("manifest");
    reveal_strlit("spine");
}

proof fn lemma_named_children_push(doc: XmlDocumentView, ks: Seq<usize>, c: usize, name: Seq<char>)
    ensures
        named_children(doc, ks.push(c), name) == (if doc.nodes[c as int].name == name {
            named_children(doc, ks, name).push(c)
        } else {
            named_children(doc, ks, name)
        }),
{
    assert(ks.push(c).drop_last() =~= ks);
    assert(named_children(doc, ks, name) + seq![c] =~= named_children(doc, ks, name).push(c));
}

#[verifier::rlimit(40)]
proof fn lemma_book_prefix_parts(archive: Seq<u8>, doc: XmlDocumentView, base: Seq<char>, k: int)
    requires
        0 <= k <= doc.nodes[doc.root as int].children.len(),
    ensures
        ({
            let ks = doc.nodes[doc.root as int].children.take(k);
            &&& book_prefix(archive, doc, base, k) is Ok <==> parts_readable(archive, doc, base, ks)
            &&& book_prefix(archive, doc, base, k) matches Ok(b) ==> package_fields(archive, doc, base, ks, b)
        }),
    decreases k,
{
    let all = doc.nodes[doc.root as int].children;
    if k == 0 {
        assert(all.take(0) =~= Seq::<usize>::empty());
    } else {
        lemma_book_prefix_parts(archive, doc, base, k - 1);
        lemma_part_names_differ();
        let prev = all.take(k - 1);
        let c = all[k - 1];
        assert(all.take(k) =~= prev.push(c));
        lemma_named_children_push(doc, prev, c, "metadata"@);
        lemma_named_children_push(doc, prev, c, "manifest"@);
        lemma_named_children_push(doc, prev, c, "spine"@);
        let fs0 = named_children(doc, prev, "manifest"@);
        let ss0 = named_children(doc, prev, "spine"@);
        let fs = named_children(doc, prev.push(c), "manifest"@);
        let ss = named_children(doc, prev.push(c), "spine"@);
        if parts_readable(archive, doc, base, prev.push(c)) {
            assert forall|i: int| 0 <= i < fs0.len() implies spec_manifest(archive, doc, #[trigger] fs0[i] as int, base) is Ok by {
                assert(fs[i] == fs0[i]);
            }
            assert forall|i: int| 0 <= i < ss0.len() implies spec_spine(doc, #[trigger] ss0[i] as int) is Ok by {
                assert(ss[i] == ss0[i]);
            }
            if doc.nodes[c as int].name == "manifest"@ {
                assert(fs[fs.len() - 1] == c);
            }
            if doc.nodes[c as int].name == "spine"@ {
                assert(ss[ss.len() - 1] == c);
            }
        }
        if book_prefix(archive, doc, base, k) is Ok {
            assert forall|i: int| 0 <= i < fs.len() implies spec_manifest(archive, doc, #[trigger] fs[i] as int, base) is Ok by {
                if i < fs0.len() {
                    assert(fs[i] == fs0[i]);
                }
            }
            assert forall|i: int| 0 <= i < ss.len() implies spec_spine(doc, #[trigger] ss[i] as int) is Ok by {
                if i < ss0.len() {
                    assert(ss[i] == ss0[i]);
                }
            }
        }
    }
}

/// A package reads without error exactly when each of its `manifest` and
/// `spine` elements does; the book then takes its metadata, resources and
/// spine each from the last element of that name among the children of the
/// package's root element (a later one replaces an earlier one), and has
/// none of them where there is no such element.
pub proof fn lemma_package_parts(archive: Seq<u8>, doc: XmlDocumentView, base: Seq<char>)
    ensures
        ({
            let ks = doc.nodes[doc.root as int].children;
            &&& spec_package(archive, doc, base) is Ok <==> parts_readable(archive, doc, base, ks)
            &&& spec_package(archive, doc, base) matches Ok(b) ==> package_fields(archive, doc, base, ks, b)
        }),
{
    let ks = doc.nodes[doc.root as int].children;
    lemma_book_prefix_parts(archive, doc, base, ks.len() as int);
    assert(ks.take(ks.len() as int) =~= ks);
}

/// The book held in the archive `archive`, or the kind of error reading it
/// gives: the container document names the package document, whose
/// directory is the base of the resources' paths.
pub open spec fn spec_open_book(archive: Seq<u8>) -> Result<EpubBookView, EpubErrorKind> {
    match spec_entry_text(archive, "META-INF/container.xml"@) {
        Err(e) => Err(e),
        Ok(container) => match xml_document(container) {
            None => Err(EpubErrorKind::Xml),
            Some(container_doc) => match spec_root_path(container_doc) {
                None => Err(EpubErrorKind::PackageNotFound),
                Some(root_path) => match spec_entry_text(archive, root_path) {
                    Err(e) => Err(e),
                    Ok(root_text) => match xml_document(root_text) {
                        None => Err(EpubErrorKind::Xml),
                        Some(root_doc) => spec_package(archive, root_doc, spec_dir_prefix(root_path)),
                    },
                },
            },
        },
    }
}

/// Whether the archive's `mimetype` entry declares an EPUB, or the kind of
/// error reading it gives.
pub open spec fn spec_mimetype_check(archive: Seq<u8>) -> Result<(), EpubErrorKind> {
    match spec_entry_text(archive, "mimetype"@) {
        Err(e) => Err(e),
        Ok(content) => if spec_trim(content) == "application/epub+zip"@ {
            Ok(())
        } else {
            Err(EpubErrorKind::IncorrectMimeType)
        },
    }
}

/// The mimetype check succeeds exactly when the `mimetype` entry reads as
/// text that, without leading and trailing whitespace, is
/// `application/epub+zip`; in particular an entry reading exactly that is
/// accepted. Other text is refused as an incorrect MIME type, and an entry
/// that cannot be read gives the error of reading it.
pub proof fn lemma_mimetype_check(archive: Seq<u8>)
    ensures
        spec_mimetype_check(archive) is Ok <==> (spec_entry_text(archive, "mimetype"@) matches Ok(
            t,
        ) && spec_trim(t) == "application/epub+zip"@),
        spec_entry_text(archive, "mimetype"@) == Ok::<_, EpubErrorKind>("application/epub+zip"@)
            ==> spec_mimetype_check(archive) is Ok,
        spec_entry_text(archive, "mimetype"@) matches Ok(t) && spec_trim(t) != "application/epub+zip"@
            ==> spec_mimetype_check(archive) == Err::<(), _>(EpubErrorKind::IncorrectMimeType),
        spec_entry_text(archive, "mimetype"@) matches Err(e) ==> spec_mimetype_check(archive) == Err::<
            (),
            _,
        >(e),
{
    reveal_strlit("application/epub+zip");
    let lit = "application/epub+zip"@;
    assert(lit[0] == 'a');
    assert(lit.last() == 'p');
    crate::text::lemma_trim_of_bounded(lit);
}

/// Whether node `n` is a `rootfile` element with a `full-path`.
pub open spec fn is_rootfile_with_path(n: XmlNodeView) -> bool {
    n.name == "rootfile"@ && n.attribute("full-path"@) is Some
}

proof fn lemma_root_path_from_first(doc: XmlDocumentView, k: int)
    requires
        0 <= k,
    ensures
        root_path_from(doc, k) matches Some(p) ==> exists|i: int|
            k <= i < doc.nodes.len() && #[trigger] is_rootfile_with_path(doc.nodes[i])
                && doc.nodes[i].attribute("full-path"@) == Some(p) && forall|j: int|
                k <= j < i ==> !#[trigger] is_rootfile_with_path(doc.nodes[j]),
        root_path_from(doc, k) is None ==> forall|i: int|
            k <= i < doc.nodes.len() ==> !#[trigger] is_rootfile_with_path(doc.nodes[i]),
    decreases doc.nodes.len() - k,
{
    if k < doc.nodes.len() {
        lemma_root_path_from_first(doc, k + 1);
        if is_rootfile_with_path(doc.nodes[k]) {
            assert(is_rootfile_with_path(doc.nodes[k]));
        } else if let Some(p) = root_path_from(doc, k) {
            let i = choose|i: int|
                k + 1 <= i < doc.nodes.len() && #[trigger] is_rootfile_with_path(doc.nodes[i])
                    && doc.nodes[i].attribute("full-path"@) == Some(p) && forall|j: int|
                    k + 1 <= j < i ==> !#[trigger] is_rootfile_with_path(doc.nodes[j]);
            assert forall|j: int| k <= j < i implies !#[trigger] is_rootfile_with_path(doc.nodes[j]) by {
                if j > k {
                    assert(k + 1 <= j < i);
                }
            }
        }
    }
}

/// The package path that a container document names is the `full-path` of
/// its first `rootfile` element (in document order) that has one; there is
/// none exactly when no `rootfile` element has a `full-path`.
pub proof fn lemma_root_path_is_first(doc: XmlDocumentView)
    ensures
        spec_root_path(doc) matches Some(p) ==> exists|i: int|
            0 <= i < doc.nodes.len() && #[trigger] is_rootfile_with_path(doc.nodes[i])
                && doc.nodes[i].attribute("full-path"@) == Some(p) && forall|j: int|
                0 <= j < i ==> !#[trigger] is_rootfile_with_path(doc.nodes[j]),
        spec_root_path(doc) is None ==> forall|i: int|
            0 <= i < doc.nodes.len() ==> !#[trigger] is_rootfile_with_path(doc.nodes[i]),
{
    lemma_root_path_from_first(doc, 0);
}

impl EpubBook {
    /// Reads the book held in the EPUB archive whose bytes are `archive`.
    pub fn new(archive: &[u8]) -> (res: EpubResult<EpubBook>)
        ensures
            match res {
                Ok(book) => spec_open_book(archive@) == Ok::<_, EpubErrorKind>(book@),
                Err(e) => spec_open_book(archive@) == Err::<EpubBookView, _>(e@),
            },
    {
        let container = match entry_text(archive, "META-INF/container.xml") {
            Ok(t) => t,
            Err(e) => return Err(e),
        };
        let container_doc = match XmlDocument::parse(container.as_str()) {
            Ok(d) => d,
            Err(e) => return Err(EpubError::Xml(e)),
        };
        let root_path = match extract_root_path(&container_doc) {
            Ok(p) => p,
            Err(e) => return Err(e),
        };
        let base_path = dir_prefix(root_path.as_str());
        let root_content = match entry_text(archive, root_path.as_str()) {
            Ok(t) => t,
            Err(e) => return Err(e),
        };
        let root_doc = match XmlDocument::parse(root_content.as_str()) {
            Ok(d) => d,
            Err(e) => return Err(EpubError::Xml(e)),
        };
        let ghost doc = root_doc@;
        let root = root_doc.root_element();
        let r = root_doc.node(root);
        let mut book = EpubBook {
            metadata: EpubMetadata::new(),
            spine: Vec::new(),
            resources: StringHashMap::new(),
        };
        assert(book@ == empty_book()) by {
            assert(strings_view(book.spine@) =~= Seq::<Seq<char>>::empty());
            assert(resources_view(book.resources@) =~= Map::<Seq<char>, ResourceView>::empty());
        }
        let mut i: usize = 0;
        while i < r.children.len()
            invariant
                doc == root_doc@,
                doc.wf(),
                spec_open_book(archive@) == spec_package(archive@, doc, base_path@),
                root == doc.root,
                r@ == doc.nodes[root as int],
                i <= r.children.len(),
                book_prefix(archive@, doc, base_path@, i as int) == Ok::<_, EpubErrorKind>(book@),
            decreases r.children.len() - i,
        {
            let ci = r.children[i];
            let c = root_doc.node(ci);
            if c.has_name("metadata") {
                book.metadata = EpubMetadata::from_xml(&root_doc, ci);
            } else if c.has_name("manifest") {
                match read_manifest(archive, &root_doc, ci, base_path.as_str()) {
                    Ok(m) => {
                        book.resources = m;
                    },
                    Err(e) => {
                        proof {
                            lemma_book_error_stays(archive@, doc, base_path@, i + 1, r@.children.len() as int);
                        }
                        return Err(e);
                    },
                }
            } else if c.has_name("spine") {
                match read_spine(&root_doc, ci) {
                    Ok(ids) => {
                        book.spine = ids;
                    },
                    Err(e) => {
                        proof {
                            lemma_book_error_stays(archive@, doc, base_path@, i + 1, r@.children.len() as int);
                        }
                        return Err(e);
                    },
                }
            }
            i = i + 1;
        }
        Ok(book)
    }

    /// The resource with id `id`.
    pub fn resource(&self, id: &str) -> (res: EpubResult<&EpubResource>)
        ensures
            match res {
                Ok(r) => self@.resources.contains_key(id@) && self@.resources[id@] == r@,
                Err(e) => !self@.resources.contains_key(id@) && e@ == EpubErrorKind::ResourceNotFound(id@),
            },
    {
        match self.resources.get(id) {
            Some(r) => Ok(r),
            None => Err(EpubError::ResourceNotFound(id.to_owned())),
        }
    }

    /// Checks that the archive's `mimetype` entry, without surrounding
    /// whitespace, reads `application/epub+zip`.
    pub fn verify_mimetype(archive: &[u8]) -> (res: EpubResult<()>)
        ensures
            match res {
                Ok(()) => spec_mimetype_check(archive@) == Ok::<(), EpubErrorKind>(()),
                Err(e) => spec_mimetype_check(archive@) == Err::<(), _>(e@),
            },
    {
        let content = match entry_text(archive, "mimetype") {
            Ok(t) => t,
            Err(e) => return Err(e),
        };
        let trimmed = trim(content.as_str());
        if str_is(trimmed.as_str(), "application/epub+zip") {
            Ok(())
        } else {
            Err(EpubError::IncorrectMimeType)
        }
    }
}

} // verus!
