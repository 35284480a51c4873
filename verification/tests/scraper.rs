use logo_scraper::crawl::{
    apply_manifest_icon, page_outcome, parse_cli, should_fetch_manifest, Metrics, PageEvent,
};
use logo_scraper::extractor::{extract_site_data, ExtractedData, LogoPriority, Parser};
use logo_scraper::manifest::select_manifest_icon;
use logo_scraper::utils::{normalize_url, parse_max_icon_size};

const BASE: &str = "https://example.com";

#[test]
fn normalize_keeps_absolute_urls() {
    assert_eq!(normalize_url(BASE, "http://cdn.test/a.png"), "http://cdn.test/a.png");
    assert_eq!(normalize_url(BASE, "https://cdn.test/a.png"), "https://cdn.test/a.png");
}

#[test]
fn normalize_scheme_relative() {
    assert_eq!(normalize_url(BASE, "//cdn.test/a.png"), "https://cdn.test/a.png");
}

#[test]
fn normalize_root_relative_drops_trailing_slashes() {
    assert_eq!(normalize_url("https://example.com//", "/logo.png"), "https://example.com/logo.png");
    assert_eq!(normalize_url(BASE, "/logo.png"), "https://example.com/logo.png");
}

#[test]
fn normalize_relative_inserts_slash() {
    assert_eq!(normalize_url("https://example.com/", "img/logo.png"), "https://example.com/img/logo.png");
}

#[test]
fn normalize_trims_whitespace() {
    assert_eq!(normalize_url(BASE, " \t/logo.png \n"), "https://example.com/logo.png");
    assert_eq!(normalize_url(BASE, "\u{3000}/a.png\u{a0}"), "https://example.com/a.png");
}

#[test]
fn normalize_rejects_templates_and_inline_data() {
    assert_eq!(normalize_url(BASE, "/img/{size}.png"), "");
    assert_eq!(normalize_url(BASE, "/img/}.png"), "");
    assert_eq!(normalize_url(BASE, "/img/undefined.png"), "");
    assert_eq!(normalize_url(BASE, "data:image/png;base64,AAAA"), "");
    assert_eq!(normalize_url(BASE, "#top"), "");
    assert_eq!(normalize_url(BASE, "   "), "https://example.com/");
}

#[test]
fn icon_size_takes_the_largest_width() {
    assert_eq!(parse_max_icon_size("16x16 32x32 192x192"), 192);
    assert_eq!(parse_max_icon_size("  48x48\t96x96 "), 96);
    assert_eq!(parse_max_icon_size("512x512 64x64"), 512);
}

#[test]
fn icon_size_any_is_largest() {
    assert_eq!(parse_max_icon_size("any"), u32::MAX);
    assert_eq!(parse_max_icon_size("16x16 AnY"), u32::MAX);
}

#[test]
fn icon_size_unreadable_is_zero() {
    assert_eq!(parse_max_icon_size(""), 0);
    assert_eq!(parse_max_icon_size("abc"), 0);
    assert_eq!(parse_max_icon_size("16X16"), 0);
    assert_eq!(parse_max_icon_size("-5x5"), 0);
    assert_eq!(parse_max_icon_size("99999999999x1"), 0);
    assert_eq!(parse_max_icon_size("+x1"), 0);
}

#[test]
fn icon_size_accepts_plus_sign_and_bare_width() {
    assert_eq!(parse_max_icon_size("+32x32"), 32);
    assert_eq!(parse_max_icon_size("144"), 144);
    assert_eq!(parse_max_icon_size("4294967295x1"), u32::MAX);
}

#[test]
fn set_logo_keeps_first_best() {
    let mut p = Parser::new(BASE);
    p.set_logo("a".to_string(), LogoPriority::LargeIcon);
    p.set_logo("b".to_string(), LogoPriority::LargeIcon);
    p.set_logo("".to_string(), LogoPriority::JsonLd);
    p.set_logo("c".to_string(), LogoPriority::SchemaImage);
    let d = p.finish();
    assert_eq!(d.logo_url.as_deref(), Some("a"));
    assert_eq!(d.priority, Some(LogoPriority::LargeIcon));
}

#[test]
fn set_logo_better_priority_replaces() {
    let mut p = Parser::new(BASE);
    p.set_logo("a".to_string(), LogoPriority::SchemaImage);
    p.set_logo("b".to_string(), LogoPriority::AppleTouchIcon);
    p.set_logo("c".to_string(), LogoPriority::JsonLd);
    p.set_logo("d".to_string(), LogoPriority::ManifestIcon);
    let d = p.finish();
    assert_eq!(d.logo_url.as_deref(), Some("c"));
    assert_eq!(d.priority, Some(LogoPriority::JsonLd));
}

#[test]
fn set_logo_ignores_empty() {
    let mut p = Parser::new(BASE);
    p.set_logo(String::new(), LogoPriority::JsonLd);
    let d = p.finish();
    assert_eq!(d.logo_url, None);
    assert_eq!(d.priority, None);
    assert_eq!(d.manifest_url, None);
}

#[test]
fn priority_levels_follow_declaration_order() {
    assert_eq!(LogoPriority::JsonLd.level(), 0);
    assert_eq!(LogoPriority::ManifestIcon.level(), 1);
    assert_eq!(LogoPriority::SchemaImage.level(), 7);
    assert!(LogoPriority::JsonLd < LogoPriority::SchemaImage);
}

#[test]
fn maybe_logo_hints_and_banners() {
    let p = Parser::new(BASE);
    assert!(p.maybe_logo("https://x.test/LOGO.png"));
    assert!(p.maybe_logo("https://x.test/app-icon.png"));
    assert!(p.maybe_logo("https://x.test/icon/a.png"));
    assert!(p.maybe_logo("https://x.test/Square.png"));
    assert!(!p.maybe_logo("https://x.test/logo-banner.png"));
    assert!(!p.maybe_logo("https://x.test/logo_1200x630.png"));
    assert!(!p.maybe_logo("https://x.test/photo.png"));
}

#[test]
fn extract_apple_touch_icon() {
    let html = r#"<html><head><link rel="Apple-Touch-Icon" href="/apple.png"></head></html>"#;
    let d = extract_site_data(html, BASE);
    assert_eq!(d.logo_url.as_deref(), Some("https://example.com/apple.png"));
    assert_eq!(d.priority, Some(LogoPriority::AppleTouchIcon));
}

#[test]
fn extract_json_ld_logo_beats_links() {
    let html = r#"<link rel="apple-touch-icon" href="/apple.png">
<script type="application/ld+json">{"@type":"Organization","logo":{"url":"https://cdn.test/org.png"}}</script>"#;
    let d = extract_site_data(html, BASE);
    assert_eq!(d.logo_url.as_deref(), Some("https://cdn.test/org.png"));
    assert_eq!(d.priority, Some(LogoPriority::JsonLd));
}

#[test]
fn extract_json_ld_nested_string_logo() {
    let html = r#"<script type="application/ld+json">[{"a":{"logo":"/l.png"}}]</script>"#;
    let d = extract_site_data(html, BASE);
    assert_eq!(d.logo_url.as_deref(), Some("https://example.com/l.png"));
}

#[test]
fn extract_json_ld_url_member_not_string_does_not_fall_back() {
    let html = r#"<script type="application/ld+json">{"logo":{"url":5,"@id":"/id.png"}}</script>"#;
    let d = extract_site_data(html, BASE);
    assert_eq!(d.logo_url, None);
}

#[test]
fn extract_text_outside_json_ld_is_ignored() {
    let html = r#"<script>{"logo":"/l.png"}</script><p>{"logo":"/p.png"}</p>"#;
    let d = extract_site_data(html, BASE);
    assert_eq!(d.logo_url, None);
}

#[test]
fn extract_large_icon_needs_size() {
    let small = r#"<link rel="icon" href="/small.png" sizes="32x32">"#;
    assert_eq!(extract_site_data(small, BASE).logo_url, None);
    let large = r#"<link rel="icon" href="/large.png" sizes="32x32 192x192">"#;
    let d = extract_site_data(large, BASE);
    assert_eq!(d.logo_url.as_deref(), Some("https://example.com/large.png"));
    assert_eq!(d.priority, Some(LogoPriority::LargeIcon));
}

#[test]
fn extract_manifest_link() {
    let html = r#"<link rel="manifest" href="/site.webmanifest">"#;
    let d = extract_site_data(html, BASE);
    assert_eq!(d.manifest_url.as_deref(), Some("https://example.com/site.webmanifest"));
    assert_eq!(d.logo_url, None);
}

#[test]
fn extract_meta_tile_and_og_image() {
    let html = r#"<meta property="og:image" content="/brand-logo.png"><meta name="msapplication-TileImage" content="/tile.png">"#;
    let d = extract_site_data(html, BASE);
    assert_eq!(d.logo_url.as_deref(), Some("https://example.com/tile.png"));
    assert_eq!(d.priority, Some(LogoPriority::MsTile));
    let banner = r#"<meta property="og:image" content="/hero-logo.png">"#;
    assert_eq!(extract_site_data(banner, BASE).logo_url, None);
}

#[test]
fn extract_img_itemprop() {
    let html = r#"<img itemprop="image" src="/pic.png"><img itemprop="logo" src="/mark.png">"#;
    let d = extract_site_data(html, BASE);
    assert_eq!(d.logo_url.as_deref(), Some("https://example.com/mark.png"));
    assert_eq!(d.priority, Some(LogoPriority::JsonLd));
}

#[test]
fn extract_empty_page() {
    let d = extract_site_data("", BASE);
    assert_eq!(d.logo_url, None);
    assert_eq!(d.manifest_url, None);
    assert_eq!(d.priority, None);
}

#[test]
fn manifest_picks_last_largest() {
    let text = r#"{"icons":[{"src":"/a.png","sizes":"192x192"},{"src":"/b.png","sizes":"512x512"},{"src":"/c.png","sizes":"512x512"},{"src":"","sizes":"1024x1024"},{"src":"/d.png","sizes":"48x48"}]}"#;
    assert_eq!(select_manifest_icon(text, BASE).as_deref(), Some("https://example.com/c.png"));
}

#[test]
fn manifest_without_icons() {
    assert_eq!(select_manifest_icon(r#"{"name":"x"}"#, BASE), None);
    assert_eq!(select_manifest_icon(r#"{"icons":{}}"#, BASE), None);
    assert_eq!(select_manifest_icon(r#"{"icons":[{"sizes":"1x1"}]}"#, BASE), None);
    assert_eq!(select_manifest_icon("not json", BASE), None);
}

#[test]
fn manifest_icon_without_sizes_still_chosen() {
    let text = r#"{"icons":[{"src":"icon.png"}]}"#;
    assert_eq!(select_manifest_icon(text, "https://example.com/").as_deref(), Some("https://example.com/icon.png"));
}

fn data(priority: Option<LogoPriority>, manifest: bool) -> ExtractedData {
    ExtractedData {
        logo_url: priority.map(|_| "https://example.com/x.png".to_string()),
        manifest_url: if manifest { Some("https://example.com/m.json".to_string()) } else { None },
        priority,
    }
}

#[test]
fn manifest_fetched_only_for_weak_logos() {
    assert!(should_fetch_manifest(&data(None, true)));
    assert!(should_fetch_manifest(&data(Some(LogoPriority::LargeIcon), true)));
    assert!(should_fetch_manifest(&data(Some(LogoPriority::SquareOgImage), true)));
    assert!(should_fetch_manifest(&data(Some(LogoPriority::SchemaImage), true)));
    assert!(!should_fetch_manifest(&data(Some(LogoPriority::AppleTouchIcon), true)));
    assert!(!should_fetch_manifest(&data(Some(LogoPriority::JsonLd), true)));
    assert!(!should_fetch_manifest(&data(None, false)));
}

#[test]
fn manifest_icon_upgrades_logo() {
    let mut d = data(Some(LogoPriority::LargeIcon), true);
    apply_manifest_icon(&mut d, Some("https://example.com/m.png".to_string()));
    assert_eq!(d.logo_url.as_deref(), Some("https://example.com/m.png"));
    assert_eq!(d.priority, Some(LogoPriority::ManifestIcon));
    let mut e = data(Some(LogoPriority::LargeIcon), true);
    apply_manifest_icon(&mut e, None);
    assert_eq!(e.priority, Some(LogoPriority::LargeIcon));
}

fn args(v: &[&str]) -> Vec<String> {
    v.iter().map(|s| s.to_string()).collect()
}

#[test]
fn cli_defaults_and_flags() {
    let o = parse_cli(&args(&["prog"]));
    assert_eq!((o.concurrency, o.quiet), (50, false));
    let o = parse_cli(&args(&["prog", "-c", "10", "-q"]));
    assert_eq!((o.concurrency, o.quiet), (10, true));
    let o = parse_cli(&args(&["prog", "--quiet", "--concurrency", "7"]));
    assert_eq!((o.concurrency, o.quiet), (7, true));
}

#[test]
fn cli_bad_concurrency_is_skipped() {
    let o = parse_cli(&args(&["prog", "-c", "-q"]));
    assert_eq!((o.concurrency, o.quiet), (50, false));
    let o = parse_cli(&args(&["prog", "-c"]));
    assert_eq!((o.concurrency, o.quiet), (50, false));
    let o = parse_cli(&args(&[]));
    assert_eq!((o.concurrency, o.quiet), (50, false));
}

#[test]
fn metrics_reachable() {
    let m = Metrics { total: 10, http_errors: 2, network_errors: 3, logos_found: 4 };
    assert_eq!(m.reachable(), 5);
    let m = Metrics { total: 1, http_errors: 2, network_errors: 3, logos_found: 0 };
    assert_eq!(m.reachable(), 0);
    let z = Metrics::default();
    assert_eq!(z.reachable(), 0);
}

#[test]
fn page_url_prefixes_https() {
    assert_eq!(logo_scraper::crawl::page_url("example.com"), "https://example.com");
}

#[test]
fn page_outcomes_count_each_domain_once() {
    let (m, logo) = page_outcome(PageEvent::NetworkError);
    assert_eq!((m.total, m.http_errors, m.network_errors, m.logos_found, logo), (1, 0, 1, 0, None));
    let (m, logo) = page_outcome(PageEvent::HttpError);
    assert_eq!((m.total, m.http_errors, m.network_errors, m.logos_found, logo), (1, 1, 0, 0, None));
    let (m, logo) = page_outcome(PageEvent::Fetched(data(Some(LogoPriority::MsTile), false)));
    assert_eq!((m.total, m.http_errors, m.network_errors, m.logos_found), (1, 0, 0, 1));
    assert_eq!(logo.as_deref(), Some("https://example.com/x.png"));
    let (m, logo) = page_outcome(PageEvent::Fetched(data(None, true)));
    assert_eq!((m.total, m.logos_found, logo), (1, 0, None));
}

#[test]
fn metrics_add_fieldwise_and_accounted() {
    let a = Metrics { total: 3, http_errors: 1, network_errors: 0, logos_found: 2 };
    let b = Metrics { total: 2, http_errors: 0, network_errors: 1, logos_found: 0 };
    let c = a.add(&b);
    assert_eq!((c.total, c.http_errors, c.network_errors, c.logos_found), (5, 1, 1, 2));
    assert!(c.http_errors + c.network_errors + c.logos_found <= c.total);
    assert!(c.logos_found <= c.reachable());
}

#[test]
fn maybe_logo_ignores_ascii_case() {
    let p = Parser::new(BASE);
    for u in ["https://x.test/Brand-Logo.png", "https://x.test/hero.png", "https://x.test/app-ICON.svg"] {
        assert_eq!(p.maybe_logo(u), p.maybe_logo(&u.to_ascii_uppercase()));
        assert_eq!(p.maybe_logo(u), p.maybe_logo(&u.to_ascii_lowercase()));
    }
}

#[test]
fn set_logo_priority_does_not_depend_on_order() {
    let cands = [("a", LogoPriority::SchemaImage), ("b", LogoPriority::MsTile), ("c", LogoPriority::MsTile)];
    let run = |order: &[usize]| {
        let mut p = Parser::new(BASE);
        for &i in order {
            p.set_logo(cands[i].0.to_string(), cands[i].1);
        }
        p.finish()
    };
    let first = run(&[0, 1, 2]);
    let second = run(&[2, 0, 1]);
    assert_eq!(first.priority, Some(LogoPriority::MsTile));
    assert_eq!(second.priority, Some(LogoPriority::MsTile));
    assert_eq!(first.logo_url.as_deref(), Some("b"));
    assert_eq!(second.logo_url.as_deref(), Some("c"));
}

#[test]
fn normalize_is_idempotent() {
    for p in ["/logo.png", "img/a.png", "//cdn.test/x.png", "https://cdn.test/y.png", " z.svg "] {
        let r = normalize_url("https://example.com/", p);
        assert!(!r.is_empty());
        assert_eq!(normalize_url("https://example.com/", &r), r);
    }
}

#[test]
fn normalize_ignores_trim_and_extra_slash() {
    for p in ["  /a.png ", "b.png", "//c/d.png", "{x}", ""] {
        let r = normalize_url(BASE, p);
        assert_eq!(normalize_url(BASE, p.trim()), r);
        assert_eq!(normalize_url("https://example.com/", p), r);
        if !r.is_empty() {
            assert!(r.ends_with(p.trim()));
        }
    }
}

#[test]
fn icon_size_of_joined_values() {
    let pairs = [("16x16", "192x192"), ("any", "32x32"), ("", "48x48"), ("abc", "")];
    for (a, b) in pairs {
        let joined = parse_max_icon_size(&format!("{} {}", a, b));
        let swapped = parse_max_icon_size(&format!("{} {}", b, a));
        let larger = parse_max_icon_size(a).max(parse_max_icon_size(b));
        assert_eq!(joined, larger);
        assert_eq!(swapped, larger);
    }
}
