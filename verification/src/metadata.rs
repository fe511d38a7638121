//! The metadata of a package document read element by element: leniently,
//! keeping every value and noting what is amiss, and strictly, accepting
//! only complete metadata.

use vstd::prelude::*;

use crate::epub::strings_view;
use crate::error::MetadataError;
use crate::text::{spec_trim, str_is, trim};
use crate::xml::{view_opt, XmlDocument, XmlDocumentView, XmlNode, XmlNodeView};

verus! {

/// The namespace of the Dublin Core elements.
pub const DC_NAMESPACE: &'static str = "http://purl.org/dc/elements/1.1/";

/// Metadata as the package document gives it, with a warning for each
/// thing that is amiss.
#[derive(Debug)]
pub struct LenientMetadata {
    pub identifiers: Vec<String>,
    pub titles: Vec<String>,
    pub languages: Vec<String>,
    pub contributors: Vec<String>,
    pub coverages: Vec<String>,
    pub creators: Vec<String>,
    pub dates: Vec<String>,
    pub descriptions: Vec<String>,
    pub formats: Vec<String>,
    pub publishers: Vec<String>,
    pub relations: Vec<String>,
    pub rights: Vec<String>,
    pub sources: Vec<String>,
    pub subjects: Vec<String>,
    pub types: Vec<String>,
    pub last_modified: Option<String>,
    pub cover_image: Option<String>,
    pub parse_warnings: Vec<MetadataError>,
}

/// The mathematical value of `LenientMetadata`.
pub ghost struct LenientMetadataView {
    pub identifiers: Seq<Seq<char>>,
    pub titles: Seq<Seq<char>>,
    pub languages: Seq<Seq<char>>,
    pub contributors: Seq<Seq<char>>,
    pub coverages: Seq<Seq<char>>,
    pub creators: Seq<Seq<char>>,
    pub dates: Seq<Seq<char>>,
    pub descriptions: Seq<Seq<char>>,
    pub formats: Seq<Seq<char>>,
    pub publishers: Seq<Seq<char>>,
    pub relations: Seq<Seq<char>>,
    pub rights: Seq<Seq<char>>,
    pub sources: Seq<Seq<char>>,
    pub subjects: Seq<Seq<char>>,
    pub types: Seq<Seq<char>>,
    pub last_modified: Option<Seq<char>>,
    pub cover_image: Option<Seq<char>>,
    pub parse_warnings: Seq<MetadataError>,
}

impl View for LenientMetadata {
    type V = LenientMetadataView;

    open spec fn view(&self) -> LenientMetadataView {
        LenientMetadataView {
            identifiers: strings_view(self.identifiers@),
            titles: strings_view(self.titles@),
            languages: strings_view(self.languages@),
            contributors: strings_view(self.contributors@),
            coverages: strings_view(self.coverages@),
            creators: strings_view(self.creators@),
            dates: strings_view(self.dates@),
            descriptions: strings_view(self.descriptions@),
            formats: strings_view(self.formats@),
            publishers: strings_view(self.publishers@),
            relations: strings_view(self.relations@),
            rights: strings_view(self.rights@),
            sources: strings_view(self.sources@),
            subjects: strings_view(self.subjects@),
            types: strings_view(self.types@),
            last_modified: view_opt(self.last_modified),
            cover_image: view_opt(self.cover_image),
            parse_warnings: self.parse_warnings@,
        }
    }
}

/// Lenient metadata with nothing in it.
pub open spec fn empty_lenient() -> LenientMetadataView {
    LenientMetadataView {
        identifiers: Seq::empty(),
        titles: Seq::empty(),
        languages: Seq::empty(),
        contributors: Seq::empty(),
        coverages: Seq::empty(),
        creators: Seq::empty(),
        dates: Seq::empty(),
        descriptions: Seq::empty(),
        formats: Seq::empty(),
        publishers: Seq::empty(),
        relations: Seq::empty(),
        rights: Seq::empty(),
        sources: Seq::empty(),
        subjects: Seq::empty(),
        types: Seq::empty(),
        last_modified: None,
        cover_image: None,
        parse_warnings: Seq::empty(),
    }
}

/// `values` with the trimmed `text` added, where there is text.
pub open spec fn push_trimmed(values: Seq<Seq<char>>, text: Option<Seq<char>>) -> Seq<Seq<char>> {
    match text {
        Some(t) => values.push(spec_trim(t)),
        None => values,
    }
}

/// `text` trimmed, where there is text.
pub open spec fn trimmed_opt(text: Option<Seq<char>>) -> Option<Seq<char>> {
    match text {
        Some(t) => Some(spec_trim(t)),
        None => None,
    }
}

/// What a Dublin Core element named `name` with text `text` adds.
pub open spec fn dc_step(m: LenientMetadataView, name: Seq<char>, text: Option<Seq<char>>) -> LenientMetadataView {
    if name == "identifier"@ {
        LenientMetadataView { identifiers: push_trimmed(m.identifiers, text), ..m }
    } else if name == "title"@ {
        LenientMetadataView { titles: push_trimmed(m.titles, text), ..m }
    } else if name == "language"@ {
        LenientMetadataView { languages: push_trimmed(m.languages, text), ..m }
    } else if name == "contributor"@ {
        LenientMetadataView { contributors: push_trimmed(m.contributors, text), ..m }
    } else if name == "coverage"@ {
        LenientMetadataView { coverages: push_trimmed(m.coverages, text), ..m }
    } else if name == "creator"@ {
        LenientMetadataView { creators: push_trimmed(m.creators, text), ..m }
    } else if name == "date"@ {
        LenientMetadataView {
            dates: push_trimmed(m.dates, text),
            parse_warnings: if m.dates.len() > 0 {
                m.parse_warnings.push(MetadataError::MultipleDates)
            } else {
                m.parse_warnings
            },
            ..m
        }
    } else if name == "description"@ {
        LenientMetadataView { descriptions: push_trimmed(m.descriptions, text), ..m }
    } else if name == "format"@ {
        LenientMetadataView { formats: push_trimmed(m.formats, text), ..m }
    } else if name == "publisher"@ {
        LenientMetadataView { publishers: push_trimmed(m.publishers, text), ..m }
    } else if name == "relation"@ {
        LenientMetadataView { relations: push_trimmed(m.relations, text), ..m }
    } else if name == "rights"@ {
        LenientMetadataView { rights: push_trimmed(m.rights, text), ..m }
    } else if name == "source"@ {
        LenientMetadataView { sources: push_trimmed(m.sources, text), ..m }
    } else if name == "subject"@ {
        LenientMetadataView { subjects: push_trimmed(m.subjects, text), ..m }
    } else if name == "type"@ {
        LenientMetadataView { types: push_trimmed(m.types, text), ..m }
    } else {
        m
    }
}

/// What a `meta` element outside the Dublin Core namespace adds: the
/// `dcterms:modified` property sets the last modification (warning where
/// one was already set), and the `cover` name sets the cover image to the
/// element's `content`.
pub open spec fn meta_step(m: LenientMetadataView, c: XmlNodeView) -> LenientMetadataView {
    let m1 = if c.attribute("property"@) == Some("dcterms:modified"@) {
        LenientMetadataView {
            parse_warnings: if m.last_modified is Some {
                m.parse_warnings.push(MetadataError::MultipleLastModified)
            } else {
                m.parse_warnings
            },
            last_modified: trimmed_opt(c.text),
            ..m
        }
    } else {
        m
    };
    if c.attribute("name"@) == Some("cover"@) {
        LenientMetadataView { cover_image: c.attribute("content"@), ..m1 }
    } else {
        m1
    }
}

/// What one child of the `metadata` element adds.
pub open spec fn lenient_step(m: LenientMetadataView, c: XmlNodeView) -> LenientMetadataView {
    if c.namespace == Some(DC_NAMESPACE@) {
        dc_step(m, c.name, c.text)
    } else if c.name == "meta"@ {
        meta_step(m, c)
    } else {
        m
    }
}

/// The lenient metadata read from the first `k` children of node `node`.
pub open spec fn lenient_prefix(doc: XmlDocumentView, node: int, k: int) -> LenientMetadataView
    decreases k,
{
    if k <= 0 {
        empty_lenient()
    } else {
        lenient_step(lenient_prefix(doc, node, k - 1), doc.child(node, k - 1))
    }
}

/// The warnings for the required things that are missing, added at the end.
pub open spec fn lenient_finish(m: LenientMetadataView) -> LenientMetadataView {
    let w0 = m.parse_warnings;
    let w1 = if m.identifiers.len() == 0 { w0.push(MetadataError::NoIdentifier) } else { w0 };
    let w2 = if m.titles.len() == 0 { w1.push(MetadataError::NoTitle) } else { w1 };
    let w3 = if m.languages.len() == 0 { w2.push(MetadataError::NoLanguage) } else { w2 };
    let w4 = if m.last_modified is None { w3.push(MetadataError::NoLastModified) } else { w3 };
    LenientMetadataView { parse_warnings: w4, ..m }
}

/// The lenient metadata read from the children of the `metadata` element
/// `node`.
pub open spec fn spec_lenient(doc: XmlDocumentView, node: int) -> LenientMetadataView {
    lenient_finish(lenient_prefix(doc, node, doc.nodes[node].children.len() as int))
}

/// Adds the trimmed text of `node` to `values`, where it has text.
fn push_trim(values: &mut Vec<String>, node: &XmlNode)
    ensures
        strings_view(final(values)@) == push_trimmed(strings_view(old(values)@), node@.text),
{
    if let Some(text) = &node.text {
        let ghost before = strings_view(values@);
        let t = trim(text.as_str());
        values.push(t);
        assert(strings_view(values@) =~= before.push(t@));
    }
}

impl LenientMetadata {
    /// Lenient metadata with nothing in it.
    pub fn new() -> (res: LenientMetadata)
        ensures
            res@ == empty_lenient(),
    {
        let res = LenientMetadata {
            identifiers: Vec::new(),
            titles: Vec::new(),
            languages: Vec::new(),
            contributors: Vec::new(),
            coverages: Vec::new(),
            creators: Vec::new(),
            dates: Vec::new(),
            descriptions: Vec::new(),
            formats: Vec::new(),
            publishers: Vec::new(),
            relations: Vec::new(),
            rights: Vec::new(),
            sources: Vec::new(),
            subjects: Vec::new(),
            types: Vec::new(),
            last_modified: None,
            cover_image: None,
            parse_warnings: Vec::new(),
        };
        assert(strings_view(res.identifiers@) =~= Seq::<Seq<char>>::empty());
        assert(strings_view(res.titles@) =~= Seq::<Seq<char>>::empty());
        assert(strings_view(res.languages@) =~= Seq::<Seq<char>>::empty());
        assert(strings_view(res.contributors@) =~= Seq::<Seq<char>>::empty());
        assert(strings_view(res.coverages@) =~= Seq::<Seq<char>>::empty());
        assert(strings_view(res.creators@) =~= Seq::<Seq<char>>::empty());
        assert(strings_view(res.dates@) =~= Seq::<Seq<char>>::empty());
        assert(strings_view(res.descriptions@) =~= Seq::<Seq<char>>::empty());
        assert(strings_view(res.formats@) =~= Seq::<Seq<char>>::empty());
        assert(strings_view(res.publishers@) =~= Seq::<Seq<char>>::empty());
        assert(strings_view(res.relations@) =~= Seq::<Seq<char>>::empty());
        assert(strings_view(res.rights@) =~= Seq::<Seq<char>>::empty());
        assert(strings_view(res.sources@) =~= Seq::<Seq<char>>::empty());
        assert(strings_view(res.subjects@) =~= Seq::<Seq<char>>::empty());
        assert(strings_view(res.types@) =~= Seq::<Seq<char>>::empty());
        assert(res.parse_warnings@ =~= Seq::<MetadataError>::empty());
        res
    }

    /// Adds what the Dublin Core element `c` gives.
    fn add_dc(&mut self, c: &XmlNode)
        ensures
            final(self)@ == dc_step(old(self)@, c@.name, c@.text),
    {
        if c.has_name("identifier") {
            push_trim(&mut self.identifiers, c);
        } else if c.has_name("title") {
            push_trim(&mut self.titles, c);
        } else if c.has_name("language") {
            push_trim(&mut self.languages, c);
        } else if c.has_name("contributor") {
            push_trim(&mut self.contributors, c);
        } else if c.has_name("coverage") {
            push_trim(&mut self.coverages, c);
        } else if c.has_name("creator") {
            push_trim(&mut self.creators, c);
        } else if c.has_name("date") {
            if self.dates.len() > 0 {
                self.parse_warnings.push(MetadataError::MultipleDates);
            }
            push_trim(&mut self.dates, c);
        } else if c.has_name("description") {
            push_trim(&mut self.descriptions, c);
        } else if c.has_name("format") {
            push_trim(&mut self.formats, c);
        } else if c.has_name("publisher") {
            push_trim(&mut self.publishers, c);
        } else if c.has_name("relation") {
            push_trim(&mut self.relations, c);
        } else if c.has_name("rights") {
            push_trim(&mut self.rights, c);
        } else if c.has_name("source") {
            push_trim(&mut self.sources, c);
        } else if c.has_name("subject") {
            push_trim(&mut self.subjects, c);
        } else if c.has_name("type") {
            push_trim(&mut self.types, c);
        }
    }

    /// Adds what the `meta` element `c` gives.
    fn add_meta(&mut self, c: &XmlNode)
        ensures
            final(self)@ == meta_step(old(self)@, c@),
    {
        let property = c.attribute("property");
        let is_modified = match &property {
            Some(p) => str_is(p.as_str(), "dcterms:modified"),
            None => false,
        };
        if is_modified {
            if self.last_modified.is_some() {
                self.parse_warnings.push(MetadataError::MultipleLastModified);
            }
            self.last_modified = match &c.text {
                Some(t) => Some(trim(t.as_str())),
                None => None,
            };
        }
        let name = c.attribute("name");
        let is_cover = match &name {
            Some(n) => str_is(n.as_str(), "cover"),
            None => false,
        };
        if is_cover {
            self.cover_image = c.attribute("content");
        }
    }

    /// Reads the metadata from the children of the `metadata` element at
    /// index `node` of `doc`.
    pub fn from_xml(doc: &XmlDocument, node: usize) -> (res: LenientMetadata)
        requires
            node < doc@.nodes.len(),
        ensures
            res@ == spec_lenient(doc@, node as int),
    {
        let n = doc.node(node);
        let mut res = LenientMetadata::new();
        let mut i: usize = 0;
        while i < n.children.len()
            invariant
                doc@.wf(),
                node < doc@.nodes.len(),
                n@ == doc@.nodes[node as int],
                i <= n.children.len(),
                res@ == lenient_prefix(doc@, node as int, i as int),
            decreases n.children.len() - i,
        {
            let c = doc.node(n.children[i]);
            let in_dc = match &c.namespace {
                Some(ns) => str_is(ns.as_str(), DC_NAMESPACE),
                None => false,
            };
            if in_dc {
                res.add_dc(c);
            } else if c.has_name("meta") {
                res.add_meta(c);
            }
            i = i + 1;
        }
        if res.identifiers.len() == 0 {
            res.parse_warnings.push(MetadataError::NoIdentifier);
        }
        if res.titles.len() == 0 {
            res.parse_warnings.push(MetadataError::NoTitle);
        }
        if res.languages.len() == 0 {
            res.parse_warnings.push(MetadataError::NoLanguage);
        }
        if res.last_modified.is_none() {
            res.parse_warnings.push(MetadataError::NoLastModified);
        }
        res
    }
}

impl Default for LenientMetadata {
    fn default() -> (res: LenientMetadata)
        ensures
            res@ == empty_lenient(),
    {
        LenientMetadata::new()
    }
}

/// Metadata that is complete: an identifier, a title, a language and one
/// last modification, with at most one date.
#[derive(Debug)]
pub struct StrictMetadata {
    pub identifiers: Vec<String>,
    pub titles: Vec<String>,
    pub languages: Vec<String>,
    pub contributors: Vec<String>,
    pub coverages: Vec<String>,
    pub creators: Vec<String>,
    pub date: Option<String>,
    pub descriptions: Vec<String>,
    pub formats: Vec<String>,
    pub publishers: Vec<String>,
    pub relations: Vec<String>,
    pub rights: Vec<String>,
    pub sources: Vec<String>,
    pub subjects: Vec<String>,
    pub types: Vec<String>,
    pub last_modified: String,
    pub cover_image: Option<String>,
}

/// The mathematical value of `StrictMetadata`.
pub ghost struct StrictMetadataView {
    pub identifiers: Seq<Seq<char>>,
    pub titles: Seq<Seq<char>>,
    pub languages: Seq<Seq<char>>,
    pub contributors: Seq<Seq<char>>,
    pub coverages: Seq<Seq<char>>,
    pub creators: Seq<Seq<char>>,
    pub date: Option<Seq<char>>,
    pub descriptions: Seq<Seq<char>>,
    pub formats: Seq<Seq<char>>,
    pub publishers: Seq<Seq<char>>,
    pub relations: Seq<Seq<char>>,
    pub rights: Seq<Seq<char>>,
    pub sources: Seq<Seq<char>>,
    pub subjects: Seq<Seq<char>>,
    pub types: Seq<Seq<char>>,
    pub last_modified: Seq<char>,
    pub cover_image: Option<Seq<char>>,
}

impl View for StrictMetadata {
    type V = StrictMetadataView;

    open spec fn view(&self) -> StrictMetadataView {
        StrictMetadataView {
            identifiers: strings_view(self.identifiers@),
            titles: strings_view(self.titles@),
            languages: strings_view(self.languages@),
            contributors: strings_view(self.contributors@),
            coverages: strings_view(self.coverages@),
            creators: strings_view(self.creators@),
            date: view_opt(self.date),
            descriptions: strings_view(self.descriptions@),
            formats: strings_view(self.formats@),
            publishers: strings_view(self.publishers@),
            relations: strings_view(self.relations@),
            rights: strings_view(self.rights@),
            sources: strings_view(self.sources@),
            subjects: strings_view(self.subjects@),
            types: strings_view(self.types@),
            last_modified: self.last_modified@,
            cover_image: view_opt(self.cover_image),
        }
    }
}

/// The last of `values`, where there is one.
pub open spec fn last_opt(values: Seq<Seq<char>>) -> Option<Seq<char>> {
    if values.len() == 0 {
        None
    } else {
        Some(values.last())
    }
}

/// The strict metadata that lenient metadata `m` makes: its warnings where
/// it has any, and otherwise its values, the date being the last one read.
pub open spec fn spec_strict(m: LenientMetadataView) -> Result<StrictMetadataView, Seq<MetadataError>> {
    if m.parse_warnings.len() > 0 {
        Err(m.parse_warnings)
    } else {
        Ok(
            StrictMetadataView {
                identifiers: m.identifiers,
                titles: m.titles,
                languages: m.languages,
                contributors: m.contributors,
                coverages: m.coverages,
                creators: m.creators,
                date: last_opt(m.dates),
                descriptions: m.descriptions,
                formats: m.formats,
                publishers: m.publishers,
                relations: m.relations,
                rights: m.rights,
                sources: m.sources,
                subjects: m.subjects,
                types: m.types,
                last_modified: m.last_modified->0,
                cover_image: m.cover_image,
            },
        )
    }
}

impl StrictMetadata {
    /// Accepts lenient metadata that has no warnings.
    pub fn try_from(lenient: LenientMetadata) -> (res: Result<StrictMetadata, Vec<MetadataError>>)
        requires
            lenient.parse_warnings@.len() == 0 ==> lenient.last_modified is Some,
        ensures
            match res {
                Ok(strict) => spec_strict(lenient@) == Ok::<_, Seq<MetadataError>>(strict@),
                Err(warnings) => spec_strict(lenient@) == Err::<StrictMetadataView, _>(warnings@),
            },
    {
        let mut lenient = lenient;
        if lenient.parse_warnings.len() > 0 {
            return Err(lenient.parse_warnings);
        }
        let date = lenient.dates.pop();
        let last_modified = lenient.last_modified.unwrap();
        Ok(StrictMetadata {
            identifiers: lenient.identifiers,
            titles: lenient.titles,
            languages: lenient.languages,
            contributors: lenient.contributors,
            coverages: lenient.coverages,
            creators: lenient.creators,
            date: date,
            descriptions: lenient.descriptions,
            formats: lenient.formats,
            publishers: lenient.publishers,
            relations: lenient.relations,
            rights: lenient.rights,
            sources: lenient.sources,
            subjects: lenient.subjects,
            types: lenient.types,
            last_modified: last_modified,
            cover_image: lenient.cover_image,
        })
    }

    /// Reads the metadata from the children of the `metadata` element at
    /// index `node` of `doc`, accepting it only where it is complete.
    pub fn try_from_xml(doc: &XmlDocument, node: usize) -> (res: Result<StrictMetadata, Vec<MetadataError>>)
        requires
            node < doc@.nodes.len(),
        ensures
            match res {
                Ok(strict) => spec_strict(spec_lenient(doc@, node as int)) == Ok::<_, Seq<MetadataError>>(strict@),
                Err(warnings) => spec_strict(spec_lenient(doc@, node as int)) == Err::<StrictMetadataView, _>(warnings@),
            },
    {
        let lenient = LenientMetadata::from_xml(doc, node);
        StrictMetadata::try_from(lenient)
    }
}

/// Every value of the list is already trimmed.
pub open spec fn all_trimmed(values: Seq<Seq<char>>) -> bool {
    forall|i: int| 0 <= i < values.len() ==> #[trigger] spec_trim(values[i]) == values[i]
}

/// Every value that lenient metadata holds as text, but the cover image
/// (which is an attribute, kept as written), has no surrounding whitespace.
pub open spec fn values_trimmed(m: LenientMetadataView) -> bool {
    &&& all_trimmed(m.identifiers)
    &&& all_trimmed(m.titles)
    &&& all_trimmed(m.languages)
    &&& all_trimmed(m.contributors)
    &&& all_trimmed(m.coverages)
    &&& all_trimmed(m.creators)
    &&& all_trimmed(m.dates)
    &&& all_trimmed(m.descriptions)
    &&& all_trimmed(m.formats)
    &&& all_trimmed(m.publishers)
    &&& all_trimmed(m.relations)
    &&& all_trimmed(m.rights)
    &&& all_trimmed(m.sources)
    &&& all_trimmed(m.subjects)
    &&& all_trimmed(m.types)
    &&& (m.last_modified matches Some(t) ==> spec_trim(t) == t)
}

/// None of the warnings about missing required values is there yet.
pub open spec fn no_missing_warnings(w: Seq<MetadataError>) -> bool {
    &&& !w.contains(MetadataError::NoIdentifier)
    &&& !w.contains(MetadataError::NoTitle)
    &&& !w.contains(MetadataError::NoLanguage)
    &&& !w.contains(MetadataError::NoLastModified)
}

/// What holds of lenient metadata at every step of the reading.
pub open spec fn lenient_progress(m: LenientMetadataView) -> bool {
    &&& values_trimmed(m)
    &&& no_missing_warnings(m.parse_warnings)
    &&& (m.dates.len() > 1 ==> m.parse_warnings.contains(MetadataError::MultipleDates))
}

proof fn lemma_push_trimmed(values: Seq<Seq<char>>, text: Option<Seq<char>>)
    requires
        all_trimmed(values),
    ensures
        all_trimmed(push_trimmed(values, text)),
{
    if let Some(t) = text {
        crate::text::lemma_trim_idempotent(t);
        let v = values.push(spec_trim(t));
        assert forall|i: int| 0 <= i < v.len() implies #[trigger] spec_trim(v[i]) == v[i] by {
            if i < values.len() {
                assert(v[i] == values[i]);
            }
        }
    }
}

proof fn lemma_warning_pushed(w: Seq<MetadataError>, x: MetadataError, y: MetadataError)
    ensures
        w.push(x).contains(y) <==> (w.contains(y) || x == y),
{
    if w.contains(y) {
        let i = choose|i: int| 0 <= i < w.len() && w[i] == y;
        assert(w.push(x)[i] == y);
    }
    if x == y {
        assert(w.push(x)[w.len() as int] == y);
    }
    if w.push(x).contains(y) {
        let i = choose|i: int| 0 <= i < w.push(x).len() && w.push(x)[i] == y;
        if i < w.len() {
            assert(w[i] == y);
        }
    }
}

proof fn lemma_step_progress(m: LenientMetadataView, c: XmlNodeView)
    requires
        lenient_progress(m),
    ensures
        lenient_progress(lenient_step(m, c)),
{
    lemma_push_trimmed(m.identifiers, c.text);
    lemma_push_trimmed(m.titles, c.text);
    lemma_push_trimmed(m.languages, c.text);
    lemma_push_trimmed(m.contributors, c.text);
    lemma_push_trimmed(m.coverages, c.text);
    lemma_push_trimmed(m.creators, c.text);
    lemma_push_trimmed(m.dates, c.text);
    lemma_push_trimmed(m.descriptions, c.text);
    lemma_push_trimmed(m.formats, c.text);
    lemma_push_trimmed(m.publishers, c.text);
    lemma_push_trimmed(m.relations, c.text);
    lemma_push_trimmed(m.rights, c.text);
    lemma_push_trimmed(m.sources, c.text);
    lemma_push_trimmed(m.subjects, c.text);
    lemma_push_trimmed(m.types, c.text);
    lemma_warning_pushed(m.parse_warnings, MetadataError::MultipleDates, MetadataError::NoIdentifier);
    lemma_warning_pushed(m.parse_warnings, MetadataError::MultipleDates, MetadataError::NoTitle);
    lemma_warning_pushed(m.parse_warnings, MetadataError::MultipleDates, MetadataError::NoLanguage);
    lemma_warning_pushed(m.parse_warnings, MetadataError::MultipleDates, MetadataError::NoLastModified);
    lemma_warning_pushed(m.parse_warnings, MetadataError::MultipleDates, MetadataError::MultipleDates);
    lemma_warning_pushed(m.parse_warnings, MetadataError::MultipleLastModified, MetadataError::NoIdentifier);
    lemma_warning_pushed(m.parse_warnings, MetadataError::MultipleLastModified, MetadataError::NoTitle);
    lemma_warning_pushed(m.parse_warnings, MetadataError::MultipleLastModified, MetadataError::NoLanguage);
    lemma_warning_pushed(m.parse_warnings, MetadataError::MultipleLastModified, MetadataError::NoLastModified);
    lemma_warning_pushed(m.parse_warnings, MetadataError::MultipleLastModified, MetadataError::MultipleDates);
    if let Some(t) = c.text {
        crate::text::lemma_trim_idempotent(t);
    }
}

proof fn lemma_prefix_progress(doc: XmlDocumentView, node: int, k: int)
    ensures
        lenient_progress(lenient_prefix(doc, node, k)),
    decreases k,
{
    if k <= 0 {
        assert(no_missing_warnings(Seq::empty()));
    } else {
        lemma_prefix_progress(doc, node, k - 1);
        lemma_step_progress(lenient_prefix(doc, node, k - 1), doc.child(node, k - 1));
    }
}

proof fn lemma_finish_warnings(m: LenientMetadataView)
    requires
        lenient_progress(m),
    ensures
        ({
            let f = lenient_finish(m);
            &&& values_trimmed(f)
            &&& f.parse_warnings.contains(MetadataError::NoIdentifier) <==> f.identifiers.len() == 0
            &&& f.parse_warnings.contains(MetadataError::NoTitle) <==> f.titles.len() == 0
            &&& f.parse_warnings.contains(MetadataError::NoLanguage) <==> f.languages.len() == 0
            &&& f.parse_warnings.contains(MetadataError::NoLastModified) <==> f.last_modified is None
            &&& f.dates.len() > 1 ==> f.parse_warnings.contains(MetadataError::MultipleDates)
        }),
{
    let w0 = m.parse_warnings;
    let w1 = if m.identifiers.len() == 0 { w0.push(MetadataError::NoIdentifier) } else { w0 };
    let w2 = if m.titles.len() == 0 { w1.push(MetadataError::NoTitle) } else { w1 };
    let w3 = if m.languages.len() == 0 { w2.push(MetadataError::NoLanguage) } else { w2 };
    let all = seq![
        MetadataError::NoIdentifier,
        MetadataError::NoTitle,
        MetadataError::NoLanguage,
        MetadataError::NoLastModified,
        MetadataError::MultipleDates,
    ];
    assert forall|k: int| 0 <= k < all.len() implies ({
        &&& w0.push(MetadataError::NoIdentifier).contains(#[trigger] all[k]) <==> (w0.contains(all[k]) || all[k] == MetadataError::NoIdentifier)
        &&& w1.push(MetadataError::NoTitle).contains(all[k]) <==> (w1.contains(all[k]) || all[k] == MetadataError::NoTitle)
        &&& w2.push(MetadataError::NoLanguage).contains(all[k]) <==> (w2.contains(all[k]) || all[k] == MetadataError::NoLanguage)
        &&& w3.push(MetadataError::NoLastModified).contains(all[k]) <==> (w3.contains(all[k]) || all[k] == MetadataError::NoLastModified)
    }) by {
        lemma_warning_pushed(w0, MetadataError::NoIdentifier, all[k]);
        lemma_warning_pushed(w1, MetadataError::NoTitle, all[k]);
        lemma_warning_pushed(w2, MetadataError::NoLanguage, all[k]);
        lemma_warning_pushed(w3, MetadataError::NoLastModified, all[k]);
    }
    assert(all[0] == MetadataError::NoIdentifier);
    assert(all[1] == MetadataError::NoTitle);
    assert(all[2] == MetadataError::NoLanguage);
    assert(all[3] == MetadataError::NoLastModified);
    assert(all[4] == MetadataError::MultipleDates);
}

/// The lenient reader keeps every text value without surrounding
/// whitespace, warns of a missing identifier, title, language or last
/// modification exactly when that value is missing, and warns when it has
/// read more than one date.
pub proof fn lemma_lenient_warnings(doc: XmlDocumentView, node: int)
    ensures
        ({
            let m = spec_lenient(doc, node);
            &&& values_trimmed(m)
            &&& m.parse_warnings.contains(MetadataError::NoIdentifier) <==> m.identifiers.len() == 0
            &&& m.parse_warnings.contains(MetadataError::NoTitle) <==> m.titles.len() == 0
            &&& m.parse_warnings.contains(MetadataError::NoLanguage) <==> m.languages.len() == 0
            &&& m.parse_warnings.contains(MetadataError::NoLastModified) <==> m.last_modified is None
            &&& m.dates.len() > 1 ==> m.parse_warnings.contains(MetadataError::MultipleDates)
        }),
{
    let k = doc.nodes[node].children.len() as int;
    lemma_prefix_progress(doc, node, k);
    lemma_finish_warnings(lenient_prefix(doc, node, k));
}

/// Metadata that the strict reader accepts has an identifier, a title and
/// a language, was read from at most one date, and has a last modification
/// without surrounding whitespace; what it refuses comes with at least one
/// warning.
pub proof fn lemma_strict_complete(doc: XmlDocumentView, node: int)
    ensures
        ({
            let m = spec_lenient(doc, node);
            match spec_strict(m) {
                Ok(s) => {
                    &&& s.identifiers.len() > 0
                    &&& s.titles.len() > 0
                    &&& s.languages.len() > 0
                    &&& m.dates.len() <= 1
                    &&& spec_trim(s.last_modified) == s.last_modified
                },
                Err(w) => w.len() > 0,
            }
        }),
{
    lemma_lenient_warnings(doc, node);
    let m = spec_lenient(doc, node);
    if m.parse_warnings.len() == 0 {
        assert(!m.parse_warnings.contains(MetadataError::NoIdentifier));
        assert(!m.parse_warnings.contains(MetadataError::NoTitle));
        assert(!m.parse_warnings.contains(MetadataError::NoLanguage));
        assert(!m.parse_warnings.contains(MetadataError::NoLastModified));
        assert(!m.parse_warnings.contains(MetadataError::MultipleDates));
    }
}

/// The trimmed texts of the Dublin Core nodes named `name` that have
/// text, in order.
pub open spec fn dc_texts(nodes: Seq<XmlNodeView>, name: Seq<char>) -> Seq<Seq<char>> {
    nodes.filter_map(
        |c: XmlNodeView|
            if c.namespace == Some(DC_NAMESPACE@) && c.name == name {
                trimmed_opt(c.text)
            } else {
                None
            },
    )
}

/// Whether `c` is a `meta` element outside the Dublin Core namespace.
pub open spec fn is_meta(c: XmlNodeView) -> bool {
    c.namespace != Some(DC_NAMESPACE@) && c.name == "meta"@
}

/// For each `meta` element with the property `dcterms:modified`, in order,
/// its trimmed text (or its absence).
pub open spec fn modified_values(nodes: Seq<XmlNodeView>) -> Seq<Option<Seq<char>>> {
    nodes.filter_map(
        |c: XmlNodeView|
            if is_meta(c) && c.attribute("property"@) == Some("dcterms:modified"@) {
                Some(trimmed_opt(c.text))
            } else {
                None
            },
    )
}

/// For each `meta` element named `cover`, in order, its `content` (or its
/// absence).
pub open spec fn cover_values(nodes: Seq<XmlNodeView>) -> Seq<Option<Seq<char>>> {
    nodes.filter_map(
        |c: XmlNodeView|
            if is_meta(c) && c.attribute("name"@) == Some("cover"@) {
                Some(c.attribute("content"@))
            } else {
                None
            },
    )
}

/// The last of a list of optional values; absent where the list is empty.
pub open spec fn last_value(values: Seq<Option<Seq<char>>>) -> Option<Seq<char>> {
    if values.len() == 0 {
        None
    } else {
        values.last()
    }
}

/// The names of the Dublin Core elements differ: each has a length and a
/// first character that no other of the same length has.
proof fn lemma_dc_names_differ()
    ensures
        "identifier"@.len() == 10 && "identifier"@[0] == 'i',
        "title"@.len() == 5 && "title"@[0] == 't',
        "language"@.len() == 8 && "language"@[0] == 'l',
        "contributor"@.len() == 11 && "contributor"@[0] == 'c',
        "coverage"@.len() == 8 && "coverage"@[0] == 'c',
        "creator"@.len() == 7 && "creator"@[0] == 'c',
        "date"@.len() == 4 && "date"@[0] == 'd',
        "description"@.len() == 11 && "description"@[0] == 'd',
        "format"@.len() == 6 && "format"@[0] == 'f',
        "publisher"@.len() == 9 && "publisher"@[0] == 'p',
        "relation"@.len() == 8 && "relation"@[0] == 'r',
        "rights"@.len() == 6 && "rights"@[0] == 'r',
        "source"@.len() == 6 && "source"@[0] == 's',
        "subject"@.len() == 7 && "subject"@[0] == 's',
        "type"@.len() == 4 && "type"@[0] == 't',
{
    reveal_strlit("identifier");
    assert("identifier"@[0] == 'i');
    reveal_strlit("title");
    assert("title"@[0] == 't');
    reveal_strlit("language");
    assert("language"@[0] == 'l');
    reveal_strlit("contributor");
    assert("contributor"@[0] == 'c');
    reveal_strlit("coverage");
    assert("coverage"@[0] == 'c');
    reveal_strlit("creator");
    assert("creator"@[0] == 'c');
    reveal_strlit("date");
    assert("date"@[0] == 'd');
    reveal_strlit("description");
    assert("description"@[0] == 'd');
    reveal_strlit("format");
    assert("format"@[0] == 'f');
    reveal_strlit("publisher");
    assert("publisher"@[0] == 'p');
    reveal_strlit("relation");
    assert("relation"@[0] == 'r');
    reveal_strlit("rights");
    assert("rights"@[0] == 'r');
    reveal_strlit("source");
    assert("source"@[0] == 's');
    reveal_strlit("subject");
    assert("subject"@[0] == 's');
    reveal_strlit("type");
    assert("type"@[0] == 't');
}

/// What lenient reading of the first `k` children gives, field by field.
pub open spec fn lenient_fields(m: LenientMetadataView, cs: Seq<XmlNodeView>) -> bool {
    &&& m.identifiers == dc_texts(cs, "identifier"@)
    &&& m.titles == dc_texts(cs, "title"@)
    &&& m.languages == dc_texts(cs, "language"@)
    &&& m.contributors == dc_texts(cs, "contributor"@)
    &&& m.coverages == dc_texts(cs, "coverage"@)
    &&& m.creators == dc_texts(cs, "creator"@)
    &&& m.dates == dc_texts(cs, "date"@)
    &&& m.descriptions == dc_texts(cs, "description"@)
    &&& m.formats == dc_texts(cs, "format"@)
    &&& m.publishers == dc_texts(cs, "publisher"@)
    &&& m.relations == dc_texts(cs, "relation"@)
    &&& m.rights == dc_texts(cs, "rights"@)
    &&& m.sources == dc_texts(cs, "source"@)
    &&& m.subjects == dc_texts(cs, "subject"@)
    &&& m.types == dc_texts(cs, "type"@)
    &&& m.last_modified == last_value(modified_values(cs))
    &&& m.cover_image == last_value(cover_values(cs))
}

proof fn lemma_lenient_prefix_fields(doc: XmlDocumentView, node: int, k: int)
    requires
        0 <= k <= doc.nodes[node].children.len(),
    ensures
        lenient_fields(lenient_prefix(doc, node, k), doc.children(node).take(k)),
    decreases k,
{
    if k == 0 {
        assert(doc.children(node).take(0) =~= Seq::<XmlNodeView>::empty());
    } else {
        lemma_lenient_prefix_fields(doc, node, k - 1);
        let cs = doc.children(node).take(k);
        assert(cs =~= doc.children(node).take(k - 1).push(doc.child(node, k - 1)));
        lemma_lenient_step_fields(
            lenient_prefix(doc, node, k - 1),
            doc.children(node).take(k - 1),
            doc.child(node, k - 1),
        );
    }
}

proof fn lemma_dc_texts_push(cs: Seq<XmlNodeView>, c: XmlNodeView, name: Seq<char>)
    ensures
        dc_texts(cs.push(c), name) == (if c.namespace == Some(DC_NAMESPACE@) && c.name == name {
            push_trimmed(dc_texts(cs, name), c.text)
        } else {
            dc_texts(cs, name)
        }),
{
    assert(cs.push(c).drop_last() =~= cs);
    if let Some(t) = c.text {
        assert(dc_texts(cs, name) + seq![spec_trim(t)] =~= dc_texts(cs, name).push(spec_trim(t)));
    }
}

proof fn lemma_meta_values_push(cs: Seq<XmlNodeView>, c: XmlNodeView)
    ensures
        modified_values(cs.push(c)) == (if is_meta(c) && c.attribute("property"@) == Some("dcterms:modified"@) {
            modified_values(cs).push(trimmed_opt(c.text))
        } else {
            modified_values(cs)
        }),
        cover_values(cs.push(c)) == (if is_meta(c) && c.attribute("name"@) == Some("cover"@) {
            cover_values(cs).push(c.attribute("content"@))
        } else {
            cover_values(cs)
        }),
{
    assert(cs.push(c).drop_last() =~= cs);
    assert(modified_values(cs) + seq![trimmed_opt(c.text)] =~= modified_values(cs).push(trimmed_opt(c.text)));
    assert(cover_values(cs) + seq![c.attribute("content"@)] =~= cover_values(cs).push(c.attribute("content"@)));
}

#[verifier::rlimit(40)]
proof fn lemma_lenient_step_fields(m: LenientMetadataView, cs: Seq<XmlNodeView>, c: XmlNodeView)
    requires
        lenient_fields(m, cs),
    ensures
        lenient_fields(lenient_step(m, c), cs.push(c)),
{
    lemma_dc_names_differ();
    lemma_dc_texts_push(cs, c, "identifier"@);
    lemma_dc_texts_push(cs, c, "title"@);
    lemma_dc_texts_push(cs, c, "language"@);
    lemma_dc_texts_push(cs, c, "contributor"@);
    lemma_dc_texts_push(cs, c, "coverage"@);
    lemma_dc_texts_push(cs, c, "creator"@);
    lemma_dc_texts_push(cs, c, "date"@);
    lemma_dc_texts_push(cs, c, "description"@);
    lemma_dc_texts_push(cs, c, "format"@);
    lemma_dc_texts_push(cs, c, "publisher"@);
    lemma_dc_texts_push(cs, c, "relation"@);
    lemma_dc_texts_push(cs, c, "rights"@);
    lemma_dc_texts_push(cs, c, "source"@);
    lemma_dc_texts_push(cs, c, "subject"@);
    lemma_dc_texts_push(cs, c, "type"@);
    lemma_meta_values_push(cs, c);
}

/// The warning that lenient reading gives for child `i` of `cs`: a Dublin
/// Core `date` after one that had text warns of several dates, and a
/// `dcterms:modified` property after one that set a modification warns of
/// several modifications.
pub open spec fn warning_at(cs: Seq<XmlNodeView>, i: int) -> Option<MetadataError> {
    let c = cs[i];
    let before = cs.take(i);
    if c.namespace == Some(DC_NAMESPACE@) && c.name == "date"@ && dc_texts(before, "date"@).len() > 0 {
        Some(MetadataError::MultipleDates)
    } else if is_meta(c) && c.attribute("property"@) == Some("dcterms:modified"@) && last_value(
        modified_values(before),
    ) is Some {
        Some(MetadataError::MultipleLastModified)
    } else {
        None
    }
}

/// The warnings given while reading the children `cs`, in their order.
pub open spec fn reading_warnings(cs: Seq<XmlNodeView>) -> Seq<MetadataError> {
    Seq::new(cs.len(), |i: int| i).filter_map(|i: int| warning_at(cs, i))
}

/// The warnings for what complete metadata must have and `m` lacks, in the
/// order identifier, title, language, last modification.
pub open spec fn missing_warnings(m: LenientMetadataView) -> Seq<MetadataError> {
    (if m.identifiers.len() == 0 { seq![MetadataError::NoIdentifier] } else { Seq::empty() })
        + (if m.titles.len() == 0 { seq![MetadataError::NoTitle] } else { Seq::empty() })
        + (if m.languages.len() == 0 { seq![MetadataError::NoLanguage] } else { Seq::empty() })
        + (if m.last_modified is None { seq![MetadataError::NoLastModified] } else { Seq::empty() })
}

proof fn lemma_filter_map_agree(n: nat, cs: Seq<XmlNodeView>, ds: Seq<XmlNodeView>)
    requires
        n <= cs.len(),
        n <= ds.len(),
        forall|i: int| 0 <= i < n ==> #[trigger] warning_at(cs, i) == warning_at(ds, i),
    ensures
        Seq::new(n, |i: int| i).filter_map(|i: int| warning_at(cs, i)) == Seq::new(n, |i: int| i).filter_map(
            |i: int| warning_at(ds, i),
        ),
    decreases n,
{
    if n > 0 {
        lemma_filter_map_agree((n - 1) as nat, cs, ds);
        assert(Seq::new(n, |i: int| i).drop_last() =~= Seq::new((n - 1) as nat, |i: int| i));
        assert(warning_at(cs, n - 1) == warning_at(ds, n - 1));
    }
}

proof fn lemma_reading_warnings_push(cs: Seq<XmlNodeView>, c: XmlNodeView)
    ensures
        reading_warnings(cs.push(c)) == (match warning_at(cs.push(c), cs.len() as int) {
            Some(w) => reading_warnings(cs).push(w),
            None => reading_warnings(cs),
        }),
{
    let ds = cs.push(c);
    assert forall|i: int| 0 <= i < cs.len() implies #[trigger] warning_at(ds, i) == warning_at(cs, i) by {
        assert(ds[i] == cs[i]);
        assert(ds.take(i) =~= cs.take(i));
    }
    lemma_filter_map_agree(cs.len(), ds, cs);
    assert(Seq::new(ds.len(), |i: int| i).drop_last() =~= Seq::new(cs.len(), |i: int| i));
    if let Some(w) = warning_at(ds, cs.len() as int) {
        assert(reading_warnings(cs) + seq![w] =~= reading_warnings(cs).push(w));
    }
}

#[verifier::rlimit(40)]
proof fn lemma_prefix_warnings(doc: XmlDocumentView, node: int, k: int)
    requires
        0 <= k <= doc.nodes[node].children.len(),
    ensures
        lenient_prefix(doc, node, k).parse_warnings == reading_warnings(doc.children(node).take(k)),
    decreases k,
{
    if k == 0 {
        assert(reading_warnings(doc.children(node).take(0)) =~= Seq::<MetadataError>::empty());
    } else {
        lemma_prefix_warnings(doc, node, k - 1);
        lemma_lenient_prefix_fields(doc, node, k - 1);
        lemma_dc_names_differ();
        let prev = doc.children(node).take(k - 1);
        let c = doc.child(node, k - 1);
        assert(doc.children(node).take(k) =~= prev.push(c));
        lemma_reading_warnings_push(prev, c);
        assert(prev.push(c)[k - 1] == c);
        assert(prev.push(c).take(k - 1) =~= prev);
    }
}

/// Lenient reading warns, in the order of the children, of each Dublin
/// Core `date` that follows one with text and of each `dcterms:modified`
/// property that follows one that set a modification; then, in the order
/// identifier, title, language, last modification, of each of them that is
/// missing. It gives no other warning.
pub proof fn lemma_lenient_warning_order(doc: XmlDocumentView, node: int)
    ensures
        spec_lenient(doc, node).parse_warnings == reading_warnings(doc.children(node)) + missing_warnings(
            spec_lenient(doc, node),
        ),
{
    let n = doc.nodes[node].children.len() as int;
    lemma_prefix_warnings(doc, node, n);
    assert(doc.children(node).take(n) =~= doc.children(node));
    let m = lenient_prefix(doc, node, n);
    let f = spec_lenient(doc, node);
    assert(f.parse_warnings =~= m.parse_warnings + missing_warnings(f));
}

/// Lenient reading keeps, for each Dublin Core element name, the trimmed
/// texts of the children of that name in the Dublin Core namespace that
/// have text, all of them and in order, and nothing else; the last
/// modification is the trimmed text (or its absence) of the last `meta`
/// with property `dcterms:modified`, and the cover image the `content` (or
/// its absence) of the last `meta` named `cover`, both absent where there
/// is no such element.
pub proof fn lemma_lenient_fields(doc: XmlDocumentView, node: int)
    ensures
        lenient_fields(spec_lenient(doc, node), doc.children(node)),
{
    let n = doc.nodes[node].children.len() as int;
    lemma_lenient_prefix_fields(doc, node, n);
    assert(doc.children(node).take(n) =~= doc.children(node));
}

/// Strict reading accepts exactly the metadata without warnings, refuses
/// the rest with its warnings, and moves every field over to the field of
/// the same name; the date is the last date read.
pub proof fn lemma_strict_moves_fields(m: LenientMetadataView)
    ensures
        spec_strict(m) is Ok <==> m.parse_warnings.len() == 0,
        spec_strict(m) matches Err(w) ==> w == m.parse_warnings,
        spec_strict(m) matches Ok(s) ==> {
            &&& s.identifiers == m.identifiers
            &&& s.titles == m.titles
            &&& s.languages == m.languages
            &&& s.contributors == m.contributors
            &&& s.coverages == m.coverages
            &&& s.creators == m.creators
            &&& s.descriptions == m.descriptions
            &&& s.formats == m.formats
            &&& s.publishers == m.publishers
            &&& s.relations == m.relations
            &&& s.rights == m.rights
            &&& s.sources == m.sources
            &&& s.subjects == m.subjects
            &&& s.types == m.types
            &&& s.date == (if m.dates.len() == 0 { None } else { Some(m.dates[m.dates.len() - 1]) })
            &&& (m.last_modified matches Some(lm) ==> s.last_modified == lm)
            &&& s.cover_image == m.cover_image
        },
{
}

} // verus!
