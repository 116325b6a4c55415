//! Selector extraction and adapter resolution over real HTML.

use daily_palette::adapter::{Adapter, Resolution, extract_image_uri, google, natgeo, resolve};
use daily_palette::error::Error;
use daily_palette::selector::{Element, Selector, extract_attribute, find};

fn selector(tag: &str, requirements: &[(&str, &str)]) -> Selector {
    Selector {
        tag: tag.to_string(),
        requirements: requirements
            .iter()
            .map(|(k, v)| (k.to_string(), v.to_string()))
            .collect(),
    }
}

#[test]
fn meta_itemprop_extraction_and_template_resolution() {
    // The extracted value is the literal attribute text; template resolution
    // concatenates it onto the origin without normalizing, so the double
    // slash stays.
    let html = r#"<html><head><meta itemprop="image" content="/img/daily.png"></head></html>"#;
    let sel = selector("meta", &[("itemprop", "image")]);
    let value = extract_attribute(html, &sel, &"content".to_string()).unwrap();
    assert_eq!(value, "/img/daily.png");
    let resolution = Resolution::Template("http://example.com/".to_string());
    let uri = resolve(&resolution, &value);
    assert_eq!(uri, "http://example.com//img/daily.png");
}

#[test]
fn no_match_is_not_found() {
    let html = r#"<html><body><p content="x">hello</p></body></html>"#;
    let sel = selector("meta", &[("itemprop", "image")]);
    let err = extract_attribute(html, &sel, &"content".to_string()).unwrap_err();
    assert!(matches!(err, Error::SelectorNotFound));
    assert_eq!(err.message(), "no selector match");
}

#[test]
fn first_match_wins_in_document_order() {
    let html = r#"<html><head><meta itemprop="image" content="first.png"><meta itemprop="image" content="second.png"></head></html>"#;
    let sel = selector("meta", &[("itemprop", "image")]);
    let value = extract_attribute(html, &sel, &"content".to_string()).unwrap();
    assert_eq!(value, "first.png");
}

#[test]
fn match_without_requested_attribute_is_not_found() {
    let html = r#"<html><head><meta itemprop="image"></head></html>"#;
    let sel = selector("meta", &[("itemprop", "image")]);
    let err = extract_attribute(html, &sel, &"content".to_string()).unwrap_err();
    assert!(matches!(err, Error::SelectorNotFound));
}

#[test]
fn every_required_attribute_must_match() {
    let html = r#"<html><head><meta name="image" content="wrong.png"><meta name="image" property="og:image" content="right.png"></head></html>"#;
    let sel = selector("meta", &[("name", "image"), ("property", "og:image")]);
    let value = extract_attribute(html, &sel, &"content".to_string()).unwrap();
    assert_eq!(value, "right.png");
}

#[test]
fn find_queries_an_in_memory_document() {
    let doc = vec![
        Element { tag: "img".to_string(), attrs: vec![("src".to_string(), "a.png".to_string())] },
        Element {
            tag: "meta".to_string(),
            attrs: vec![
                ("itemprop".to_string(), "image".to_string()),
                ("content".to_string(), "b.png".to_string()),
            ],
        },
    ];
    let sel = selector("meta", &[("itemprop", "image")]);
    let value = find(&doc, &sel, &"content".to_string()).unwrap();
    assert_eq!(value, "b.png");
    let missing = selector("video", &[]);
    assert!(matches!(
        find(&doc, &missing, &"content".to_string()),
        Err(Error::SelectorNotFound)
    ));
}

#[test]
fn adapters_carry_their_fixed_configuration() {
    let g: Adapter = google();
    assert_eq!(g.start_uri, "http://www.google.com/");
    assert_eq!(g.selector.tag, "meta");
    assert_eq!(
        g.selector.requirements,
        vec![("itemprop".to_string(), "image".to_string())]
    );
    assert_eq!(g.attribute, "content");
    assert!(matches!(g.resolution, Resolution::Template(ref o) if o == "http://www.google.com/"));

    let n: Adapter = natgeo();
    assert_eq!(n.start_uri, "http://yourshot.nationalgeographic.com/daily-dozen/");
    assert_eq!(n.selector.requirements.len(), 2);
    assert!(matches!(n.resolution, Resolution::Direct));
}

#[test]
fn adapter_extraction_resolves_against_its_policy() {
    let html = r#"<html><head><meta itemprop="image" content="/logos/today.png"></head></html>"#;
    let uri = extract_image_uri(&google(), html).unwrap();
    assert_eq!(uri, "http://www.google.com//logos/today.png");

    let html = r#"<html><head><meta name="image" property="og:image" content="http://images.example/shot.jpg"></head></html>"#;
    let uri = extract_image_uri(&natgeo(), html).unwrap();
    assert_eq!(uri, "http://images.example/shot.jpg");
}

#[test]
fn direct_resolution_keeps_the_value() {
    let value = "https://cdn.example/x.png".to_string();
    assert_eq!(resolve(&Resolution::Direct, &value), value);
}
