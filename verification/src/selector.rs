//! The selector extractor: a pure query over a parsed HTML document for the
//! first element matching a tag-and-attributes selector, yielding one of its
//! attribute values.

use vstd::prelude::*;
use kuchiki::traits::TendrilSink;
use crate::error::Error;

verus! {

/// One element of a parsed document: its (lower-cased) tag name and its
/// attributes as name-value pairs.
pub struct Element {
    pub tag: String,
    pub attrs: Vec<(String, String)>,
}

/// The mathematical shape of an element: its strings as character sequences.
pub struct ElementModel {
    pub tag: Seq<char>,
    pub attrs: Seq<(Seq<char>, Seq<char>)>,
}

impl Element {
    pub open spec fn model(self) -> ElementModel {
        ElementModel {
            tag: self.tag@,
            attrs: Seq::new(self.attrs@.len(), |i: int| (self.attrs@[i].0@, self.attrs@[i].1@)),
        }
    }
}

/// A document as the extractor sees it: its elements in document order.
pub open spec fn doc_model(doc: Seq<Element>) -> Seq<ElementModel> {
    doc.map_values(|e: Element| e.model())
}

/// A declarative attribute selector: an element matches when its tag equals
/// `tag` and it carries every required attribute with exactly the required
/// value.
pub struct Selector {
    pub tag: String,
    pub requirements: Vec<(String, String)>,
}

/// The mathematical shape of a selector.
pub struct SelectorModel {
    pub tag: Seq<char>,
    pub requirements: Seq<(Seq<char>, Seq<char>)>,
}

impl Selector {
    pub open spec fn model(self) -> SelectorModel {
        SelectorModel {
            tag: self.tag@,
            requirements: Seq::new(
                self.requirements@.len(),
                |i: int| (self.requirements@[i].0@, self.requirements@[i].1@),
            ),
        }
    }
}

/// The value of the attribute named `name`, looked up from position `i` on;
/// the earliest pair wins.
pub open spec fn attr_from(attrs: Seq<(Seq<char>, Seq<char>)>, name: Seq<char>, i: int) -> Option<
    Seq<char>,
>
    decreases attrs.len() - i,
    when 0 <= i <= attrs.len()
{
    if i >= attrs.len() {
        None
    } else if attrs[i].0 == name {
        Some(attrs[i].1)
    } else {
        attr_from(attrs, name, i + 1)
    }
}

/// The value of the attribute named `name` on an element, if present.
pub open spec fn attr_value(attrs: Seq<(Seq<char>, Seq<char>)>, name: Seq<char>) -> Option<
    Seq<char>,
> {
    attr_from(attrs, name, 0)
}

/// Whether an element satisfies a selector.
pub open spec fn element_matches(em: ElementModel, sm: SelectorModel) -> bool {
    &&& em.tag == sm.tag
    &&& forall|i: int|
        0 <= i < sm.requirements.len() ==> attr_value(
            em.attrs,
            (#[trigger] sm.requirements[i]).0,
        ) == Some(sm.requirements[i].1)
}

/// The position of the first element from `i` on that satisfies the
/// selector.
pub open spec fn match_from(doc: Seq<ElementModel>, sm: SelectorModel, i: int) -> Option<int>
    decreases doc.len() - i,
    when 0 <= i <= doc.len()
{
    if i >= doc.len() {
        None
    } else if element_matches(doc[i], sm) {
        Some(i)
    } else {
        match_from(doc, sm, i + 1)
    }
}

/// What extraction yields on a document: the requested attribute of the
/// first matching element, or nothing when no element matches or the first
/// match lacks the attribute.
pub open spec fn find_spec(doc: Seq<ElementModel>, sm: SelectorModel, attr: Seq<char>) -> Option<
    Seq<char>,
> {
    match match_from(doc, sm, 0) {
        Some(i) => attr_value(doc[i].attrs, attr),
        None => None,
    }
}

/// When no element of the document satisfies the selector, extraction
/// yields nothing.
pub proof fn lemma_find_no_match(doc: Seq<ElementModel>, sm: SelectorModel, attr: Seq<char>)
    requires
        forall|j: int| 0 <= j < doc.len() ==> !element_matches(#[trigger] doc[j], sm),
    ensures
        find_spec(doc, sm, attr) is None,
{
    lemma_no_match_from(doc, sm, 0);
}

proof fn lemma_no_match_from(doc: Seq<ElementModel>, sm: SelectorModel, i: int)
    requires
        0 <= i <= doc.len(),
        forall|j: int| 0 <= j < doc.len() ==> !element_matches(#[trigger] doc[j], sm),
    ensures
        match_from(doc, sm, i) is None,
    decreases doc.len() - i,
{
    if i < doc.len() {
        lemma_no_match_from(doc, sm, i + 1);
    }
}

/// When element `k` satisfies the selector and no earlier element does,
/// extraction reads exactly element `k`, whatever stands after it.
pub proof fn lemma_find_first_match(doc: Seq<ElementModel>, sm: SelectorModel, attr: Seq<char>, k: int)
    requires
        0 <= k < doc.len(),
        element_matches(doc[k], sm),
        forall|j: int| 0 <= j < k ==> !element_matches(#[trigger] doc[j], sm),
    ensures
        match_from(doc, sm, 0) == Some(k),
        find_spec(doc, sm, attr) == attr_value(doc[k].attrs, attr),
{
    lemma_match_from_reaches(doc, sm, 0, k);
}

proof fn lemma_match_from_reaches(doc: Seq<ElementModel>, sm: SelectorModel, i: int, k: int)
    requires
        0 <= i <= k < doc.len(),
        element_matches(doc[k], sm),
        forall|j: int| 0 <= j < k ==> !element_matches(#[trigger] doc[j], sm),
    ensures
        match_from(doc, sm, i) == Some(k),
    decreases k - i,
{
    if i < k {
        lemma_match_from_reaches(doc, sm, i + 1, k);
    }
}

/// The attribute named `name` on one element, cloned out of it.
fn get_attribute(attrs: &Vec<(String, String)>, name: &String) -> (r: Option<String>)
    ensures
        match r {
            Some(s) => attr_value(
                Seq::new(attrs@.len(), |i: int| (attrs@[i].0@, attrs@[i].1@)),
                name@,
            ) == Some(s@),
            None => attr_value(
                Seq::new(attrs@.len(), |i: int| (attrs@[i].0@, attrs@[i].1@)),
                name@,
            ) is None,
        },
{
    let ghost model = Seq::new(attrs@.len(), |i: int| (attrs@[i].0@, attrs@[i].1@));
    let mut j: usize = 0;
    while j < attrs.len()
        invariant
            j <= attrs@.len(),
            model == Seq::new(attrs@.len(), |i: int| (attrs@[i].0@, attrs@[i].1@)),
            attr_from(model, name@, 0) == attr_from(model, name@, j as int),
        decreases attrs@.len() - j,
    {
        if attrs[j].0.eq(name) {
            return Some(attrs[j].1.clone());
        }
        j += 1;
    }
    None
}

/// Whether one element satisfies the selector, decided at run time.
fn matches_element(e: &Element, sel: &Selector) -> (r: bool)
    ensures
        r == element_matches(e.model(), sel.model()),
{
    if !e.tag.eq(&sel.tag) {
        return false;
    }
    let mut i: usize = 0;
    while i < sel.requirements.len()
        invariant
            i <= sel.requirements@.len(),
            e.tag@ == sel.tag@,
            forall|t: int|
                0 <= t < i ==> attr_value(
                    e.model().attrs,
                    (#[trigger] sel.model().requirements[t]).0,
                ) == Some(sel.model().requirements[t].1),
        decreases sel.requirements@.len() - i,
    {
        let wanted = &sel.requirements[i];
        match get_attribute(&e.attrs, &wanted.0) {
            Some(v) => {
                if !v.eq(&wanted.1) {
                    proof {
                        assert(attr_value(e.model().attrs, sel.model().requirements[i as int].0)
                            == Some(v@));
                    }
                    return false;
                }
            },
            None => {
                return false;
            },
        }
        i += 1;
    }
    true
}

/// Document-order first-match extraction: the value of `attr` on the first
/// element satisfying `sel`, or `SelectorNotFound` when no element matches
/// or the match lacks the attribute. Absence is an expected outcome, not a
/// fault.
pub fn find(doc: &Vec<Element>, sel: &Selector, attr: &String) -> (r: Result<String, Error>)
    ensures
        match r {
            Ok(s) => find_spec(doc_model(doc@), sel.model(), attr@) == Some(s@),
            Err(e) => e is SelectorNotFound && find_spec(doc_model(doc@), sel.model(), attr@)
                is None,
        },
{
    let ghost dm = doc_model(doc@);
    let mut i: usize = 0;
    while i < doc.len()
        invariant
            i <= doc@.len(),
            dm == doc_model(doc@),
            match_from(dm, sel.model(), 0) == match_from(dm, sel.model(), i as int),
        decreases doc@.len() - i,
    {
        if matches_element(&doc[i], sel) {
            proof {
                assert(dm[i as int] == doc@[i as int].model());
                assert(match_from(dm, sel.model(), i as int) == Some(i as int));
            }
            return match get_attribute(&doc[i].attrs, attr) {
                Some(v) => {
                    proof {
                        assert(dm[i as int].attrs == doc@[i as int].model().attrs);
                    }
                    Ok(v)
                },
                None => Err(Error::SelectorNotFound),
            };
        }
        proof {
            assert(dm[i as int] == doc@[i as int].model());
        }
        i += 1;
    }
    Err(Error::SelectorNotFound)
}

/// What the HTML parser yields for a page: its elements in document order,
/// each with its tag and attributes. Parsing is a pure function of the text.
pub uninterp spec fn parsed_document(html: Seq<char>) -> Seq<ElementModel>;

/// Relies on kuchiki::parse_html (an html5ever tree builder): it parses the
/// text deterministically, and a pre-order walk of the tree visits the
/// elements in document order, each carrying its attribute map.
#[verifier::external_body]
fn parse_document(html: &str) -> (doc: Vec<Element>)
    ensures
        doc_model(doc@) == parsed_document(html@),
{
    let root = kuchiki::parse_html().one(html);
    let mut out: Vec<Element> = Vec::new();
    for node in root.inclusive_descendants() {
        if let Some(el) = node.as_element() {
            let attrs: Vec<(String, String)> = el
                .attributes
                .borrow()
                .map
                .iter()
                .map(|(k, v)| (k.local.to_string(), v.value.clone()))
                .collect();
            out.push(Element { tag: el.name.local.to_string(), attrs });
        }
    }
    out
}

/// Parses a page and extracts the requested attribute of the first element
/// matching the selector.
pub fn extract_attribute(html: &str, sel: &Selector, attr: &String) -> (r: Result<String, Error>)
    ensures
        match r {
            Ok(s) => find_spec(parsed_document(html@), sel.model(), attr@) == Some(s@),
            Err(e) => e is SelectorNotFound && find_spec(parsed_document(html@), sel.model(), attr@)
                is None,
        },
{
    let doc = parse_document(html);
    find(&doc, sel, attr)
}

} // verus!
