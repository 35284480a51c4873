use logo_scraper::extractor::{
    decide_img, decide_link, decide_meta, extract_from_tokens, is_json_ld_marker,
    lowercase_url_looks_like_logo, LogoPriority, Parser,
};
use logo_scraper::html::{HtmlToken, TokenStream};
use logo_scraper::json::JsonValue;
use logo_scraper::manifest::icon_from_manifest;

const BASE: &str = "https://example.com";

fn attr(k: &str, v: &[u8]) -> (Vec<u8>, Vec<u8>) {
    (k.as_bytes().to_vec(), v.to_vec())
}

fn start(name: &str, attrs: Vec<(Vec<u8>, Vec<u8>)>) -> HtmlToken {
    HtmlToken::StartTag { name: name.as_bytes().to_vec(), attributes: attrs }
}

#[test]
fn tokens_link_then_better_json_ld() {
    let tokens = TokenStream {
        tokens: vec![
            start("link", vec![attr("href", b"/t.png"), attr("rel", b"apple-touch-icon")]),
            start("script", vec![attr("type", b"Application/LD+JSON")]),
            HtmlToken::Text(br#"{"logo":"https://cdn.test/j.png"}"#.to_vec()),
            HtmlToken::EndTag { name: b"SCRIPT".to_vec() },
            HtmlToken::Text(br#"{"logo":"https://cdn.test/late.png"}"#.to_vec()),
            HtmlToken::Other,
        ],
    };
    let d = extract_from_tokens(&tokens, BASE);
    assert_eq!(d.logo_url.as_deref(), Some("https://cdn.test/j.png"));
    assert_eq!(d.priority, Some(LogoPriority::JsonLd));
}

#[test]
fn tokens_json_ld_closed_by_end_tag() {
    let tokens = TokenStream {
        tokens: vec![
            start("script", vec![attr("type", b"application/ld+json")]),
            HtmlToken::EndTag { name: b"ScRiPt".to_vec() },
            HtmlToken::Text(br#"{"logo":"/x.png"}"#.to_vec()),
        ],
    };
    assert_eq!(extract_from_tokens(&tokens, BASE).logo_url, None);
}

#[test]
fn tokens_last_duplicate_attribute_wins() {
    let tokens = TokenStream {
        tokens: vec![start(
            "LINK",
            vec![attr("href", b"/first.png"), attr("REL", b"icon"), attr("href", b"/second.png"), attr("sizes", b"any")],
        )],
    };
    let d = extract_from_tokens(&tokens, BASE);
    assert_eq!(d.logo_url.as_deref(), Some("https://example.com/second.png"));
    assert_eq!(d.priority, Some(LogoPriority::LargeIcon));
}

#[test]
fn lossy_decoding_of_attribute_values() {
    let mut p = Parser::new(BASE);
    p.handle_start(&b"link".to_vec(), &vec![attr("href", b"/a\xff.png"), attr("rel", b"apple-touch-icon")]);
    let d = p.finish();
    assert_eq!(d.logo_url.as_deref(), Some("https://example.com/a\u{fffd}.png"));
}

#[test]
fn handle_text_ignored_outside_json_ld() {
    let mut p = Parser::new(BASE);
    p.handle_text(&br#"{"logo":"/x.png"}"#.to_vec());
    p.handle_start(&b"script".to_vec(), &vec![attr("type", b"application/ld+json")]);
    p.handle_text(&b"not json".to_vec());
    p.handle_end(&b"script".to_vec());
    assert_eq!(p.finish().logo_url, None);
}

#[test]
fn lowercase_hints() {
    let chars = |s: &str| s.chars().collect::<Vec<char>>();
    assert!(lowercase_url_looks_like_logo(&chars("https://x/logo.png")));
    assert!(!lowercase_url_looks_like_logo(&chars("https://x/LOGO.png")));
    assert!(!lowercase_url_looks_like_logo(&chars("https://x/cover-logo.png")));
}

#[test]
fn json_search_in_model_values() {
    let mut p = Parser::new(BASE);
    let v = JsonValue::Array(vec![
        JsonValue::Object(vec![
            ("logo".to_string(), JsonValue::Object(vec![
                ("@id".to_string(), JsonValue::Str("/id.png".to_string())),
                ("contentUrl".to_string(), JsonValue::Str("/content.png".to_string())),
            ])),
        ]),
        JsonValue::Object(vec![("logo".to_string(), JsonValue::Str("/other.png".to_string()))]),
    ]);
    p.extract_from_json(&v);
    let d = p.finish();
    assert_eq!(d.logo_url.as_deref(), Some("https://example.com/id.png"));
}

#[test]
fn json_search_empty_logo_searches_members() {
    let mut p = Parser::new(BASE);
    let v = JsonValue::Object(vec![
        ("a".to_string(), JsonValue::Object(vec![("logo".to_string(), JsonValue::Str("/deep.png".to_string()))])),
        ("logo".to_string(), JsonValue::Str(String::new())),
        ("n".to_string(), JsonValue::Number),
        ("b".to_string(), JsonValue::Bool(true)),
        ("z".to_string(), JsonValue::Null),
    ]);
    p.extract_from_json(&v);
    assert_eq!(p.finish().logo_url.as_deref(), Some("https://example.com/deep.png"));
}

#[test]
fn manifest_model_ties_go_to_last() {
    let icon = |src: &str, sizes: &str| {
        JsonValue::Object(vec![
            ("sizes".to_string(), JsonValue::Str(sizes.to_string())),
            ("src".to_string(), JsonValue::Str(src.to_string())),
        ])
    };
    let m = JsonValue::Object(vec![(
        "icons".to_string(),
        JsonValue::Array(vec![icon("/a.png", "96x96"), icon("/b.png", "96x96"), icon("/c.png", "48x48")]),
    )]);
    assert_eq!(icon_from_manifest(&m, BASE).as_deref(), Some("https://example.com/b.png"));
    assert_eq!(icon_from_manifest(&JsonValue::Null, BASE), None);
}

fn chars(s: &str) -> Vec<char> {
    s.chars().collect()
}

#[test]
fn decide_link_on_decoded_attributes() {
    let (m, c) = decide_link(BASE, &chars("manifest"), &chars("/m.json"), &chars(""));
    assert_eq!(m.as_deref(), Some("https://example.com/m.json"));
    assert!(c.is_none());
    let (m, c) = decide_link(BASE, &chars("shortcut icon"), &chars("/f.png"), &chars("any"));
    assert!(m.is_none());
    assert_eq!(c, Some(("https://example.com/f.png".to_string(), LogoPriority::LargeIcon)));
    let (m, c) = decide_link(BASE, &chars("icon"), &chars("/f.png"), &chars("64x64"));
    assert!(m.is_none() && c.is_none());
    let (m, c) = decide_link(BASE, &chars("image_src"), &chars(""), &chars(""));
    assert!(m.is_none() && c.is_none());
    let (_, c) = decide_link(BASE, &chars("image_src"), &chars("i.png"), &chars(""));
    assert_eq!(c, Some(("https://example.com/i.png".to_string(), LogoPriority::ImageSrc)));
}

#[test]
fn decide_meta_and_img_on_decoded_attributes() {
    let tile = decide_meta(BASE, &Some(chars("msapplication-tileimage")), &Some(chars("/t.png")));
    assert_eq!(tile, Some(("https://example.com/t.png".to_string(), LogoPriority::MsTile)));
    let og = decide_meta(BASE, &Some(chars("twitter:image")), &Some(chars("/square.png")));
    assert_eq!(og, Some(("https://example.com/square.png".to_string(), LogoPriority::SquareOgImage)));
    assert_eq!(decide_meta(BASE, &Some(chars("og:image")), &None), None);
    assert_eq!(decide_meta(BASE, &Some(chars("og:image")), &Some(chars("/photo.png"))), None);
    let img = decide_img(BASE, &Some(chars("image")), &Some(chars("/p.png")));
    assert_eq!(img, Some(("https://example.com/p.png".to_string(), LogoPriority::SchemaImage)));
    assert_eq!(decide_img(BASE, &Some(chars("photo")), &Some(chars("/p.png"))), None);
    assert!(is_json_ld_marker(&chars("type"), &chars("application/ld+json; charset=utf-8")));
    assert!(!is_json_ld_marker(&chars("kind"), &chars("application/ld+json")));
}
