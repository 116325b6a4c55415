//! Source adapters: each is a pure configuration bundle naming where today's
//! page lives, which element holds the image reference, and how the
//! extracted value resolves to an absolute image URI.

use vstd::prelude::*;
use vstd::string::StringExecFns;
use crate::error::Error;
use crate::selector::{Selector, extract_attribute, find_spec, parsed_document};

verus! {

/// How an extracted attribute value becomes an absolute image URI.
///
/// - `Template`: the value is a path fragment; it is concatenated onto the
///   fixed origin held here.
/// - `Direct`: the value already is an absolute URI and is used as it stands.
pub enum Resolution {
    Template(String),
    Direct,
}

/// The URI that a resolution policy yields for an extracted value.
pub open spec fn resolved_uri(res: Resolution, extracted: Seq<char>) -> Seq<char> {
    match res {
        Resolution::Template(origin) => origin@ + extracted,
        Resolution::Direct => extracted,
    }
}

/// One source of a daily image: start page, selector, attribute, and
/// resolution policy. Adding a source means adding an adapter, never
/// touching the quantizer or renderer.
pub struct Adapter {
    pub start_uri: String,
    pub selector: Selector,
    pub attribute: String,
    pub resolution: Resolution,
}

/// Applies the resolution policy to an extracted attribute value.
pub fn resolve(res: &Resolution, extracted: &String) -> (uri: String)
    ensures
        uri@ == resolved_uri(*res, extracted@),
{
    match res {
        Resolution::Template(origin) => {
            let mut s = origin.clone();
            s.append(extracted.as_str());
            s
        },
        Resolution::Direct => extracted.clone(),
    }
}

/// Runs the compute half of an adapter on a fetched page: extract the image
/// reference and resolve it. `SelectorNotFound` exactly when the page holds
/// no match for the adapter's selector (or the match lacks the attribute).
pub fn extract_image_uri(adapter: &Adapter, html: &str) -> (r: Result<String, Error>)
    ensures
        match r {
            Ok(uri) => find_spec(
                parsed_document(html@),
                adapter.selector.model(),
                adapter.attribute@,
            ) matches Some(v) && uri@ == resolved_uri(adapter.resolution, v),
            Err(e) => e is SelectorNotFound && find_spec(
                parsed_document(html@),
                adapter.selector.model(),
                adapter.attribute@,
            ) is None,
        },
{
    let content = extract_attribute(html, &adapter.selector, &adapter.attribute)?;
    Ok(resolve(&adapter.resolution, &content))
}

/// The banner-of-the-day source: the image reference sits on a
/// `meta[itemprop="image"]` element as a path fragment, resolved against the
/// page's origin.
pub fn google() -> (a: Adapter)
    ensures
        a.start_uri@ == "http://www.google.com/"@,
        a.selector.tag@ == "meta"@,
        a.selector.requirements@.len() == 1,
        a.selector.requirements@[0].0@ == "itemprop"@,
        a.selector.requirements@[0].1@ == "image"@,
        a.attribute@ == "content"@,
        a.resolution matches Resolution::Template(origin) && origin@ == "http://www.google.com/"@,
{
    let mut requirements: Vec<(String, String)> = Vec::new();
    requirements.push((String::from_str("itemprop"), String::from_str("image")));
    Adapter {
        start_uri: String::from_str("http://www.google.com/"),
        selector: Selector { tag: String::from_str("meta"), requirements },
        attribute: String::from_str("content"),
        resolution: Resolution::Template(String::from_str("http://www.google.com/")),
    }
}

/// The daily-dozen source: the image reference sits on a
/// `meta[name="image"][property="og:image"]` element as an absolute URI.
pub fn natgeo() -> (a: Adapter)
    ensures
        a.start_uri@ == "http://yourshot.nationalgeographic.com/daily-dozen/"@,
        a.selector.tag@ == "meta"@,
        a.selector.requirements@.len() == 2,
        a.selector.requirements@[0].0@ == "name"@,
        a.selector.requirements@[0].1@ == "image"@,
        a.selector.requirements@[1].0@ == "property"@,
        a.selector.requirements@[1].1@ == "og:image"@,
        a.attribute@ == "content"@,
        a.resolution is Direct,
{
    let mut requirements: Vec<(String, String)> = Vec::new();
    requirements.push((String::from_str("name"), String::from_str("image")));
    requirements.push((String::from_str("property"), String::from_str("og:image")));
    Adapter {
        start_uri: String::from_str("http://yourshot.nationalgeographic.com/daily-dozen/"),
        selector: Selector { tag: String::from_str("meta"), requirements },
        attribute: String::from_str("content"),
        resolution: Resolution::Direct,
    }
}

} // verus!
