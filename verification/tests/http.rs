use syljs::http::{
    compute_freshness, is_cacheable_status, is_redirect_status, is_success_status,
    mime_allowed_for_destination, sniff_mime, HttpCacheControl, HttpDestination, HttpHeaderList,
    HttpMethod, HttpMimeType,
};

#[test]
fn headers_are_case_insensitive() {
    let mut headers = HttpHeaderList::new();
    headers.insert("Content-Type", "Text/HTML; charset=utf-8");
    assert_eq!(headers.get("content-type"), Some("Text/HTML; charset=utf-8"));
    assert_eq!(headers.get("CONTENT-TYPE"), Some("Text/HTML; charset=utf-8"));
}

#[test]
fn cache_control_parses_core_directives() {
    let parsed = HttpCacheControl::parse("max-age=60, no-cache, immutable");
    assert_eq!(parsed.max_age_secs, Some(60));
    assert!(parsed.no_cache);
    assert!(parsed.immutable);
}

#[test]
fn freshness_uses_max_age() {
    let headers = HttpHeaderList::from_pairs(&[("cache-control", "max-age=10")]);
    let decision = compute_freshness(200, &headers, 30_000, 1_000);
    assert!(decision.storable);
    assert_eq!(decision.expires_at_ms, 11_000);
}

#[test]
fn sniff_mime_prefers_header() {
    let headers = HttpHeaderList::from_pairs(&[("content-type", "text/css; charset=utf-8")]);
    let mime = sniff_mime(HttpDestination::Style, "https://x.test/a", &headers, b"body{}");
    assert_eq!(mime.essence, "text/css");
    assert_eq!(mime.charset.as_deref(), Some("utf-8"));
    assert!(!mime.sniffed);
}

#[test]
fn sniff_mime_uses_magic_bytes() {
    let headers = HttpHeaderList::new();
    let mime = sniff_mime(
        HttpDestination::Image,
        "https://x.test/no-ext",
        &headers,
        b"\x89PNG\r\n\x1a\nabc",
    );
    assert_eq!(mime.essence, "image/png");
    assert!(mime.sniffed);
}

#[test]
fn method_parsing_is_stable() {
    assert_eq!(HttpMethod::parse("get"), Some(HttpMethod::Get));
    assert_eq!(HttpMethod::parse("POST"), Some(HttpMethod::Post));
    assert_eq!(HttpMethod::parse("BREW"), None);
}

#[test]
fn no_store_is_not_storable() {
    let headers = HttpHeaderList::from_pairs(&[("cache-control", "no-store, max-age=999")]);
    let decision = compute_freshness(200, &headers, 60_000, 1000);
    assert!(!decision.storable);
    assert_eq!(decision.expires_at_ms, 1000);
}

#[test]
fn destination_mime_guard_blocks_script_as_png() {
    let headers = HttpHeaderList::from_pairs(&[("content-type", "image/png")]);
    let mime = sniff_mime(
        HttpDestination::Script,
        "https://example.com/app.js",
        &headers,
        b"alert(1)",
    );
    assert_eq!(mime.essence, "image/png");
    assert!(!mime_allowed_for_destination(HttpDestination::Script, &mime));
}

#[test]
fn url_extension_sniffing_works_for_worker() {
    let headers = HttpHeaderList::new();
    let mime = sniff_mime(
        HttpDestination::Worker,
        "https://example.com/worker.mjs",
        &headers,
        b"self.onmessage=function(){};",
    );
    assert_eq!(mime.essence, "text/javascript");
    assert!(mime.sniffed);
}

#[test]
fn header_names_are_normalized_and_invalid_names_ignored() {
    let mut headers = HttpHeaderList::new();
    headers.insert("  X-Trace  ", " a\r\nb ");
    headers.insert("bad name", "ignored");
    headers.insert("", "ignored");
    assert_eq!(headers.get("x-trace"), Some("ab"));
    assert!(!headers.contains("bad name"));
    assert_eq!(headers.to_pairs(), vec![("x-trace".to_owned(), "ab".to_owned())]);
}

#[test]
fn header_pairs_come_out_sorted_and_append_joins_values() {
    let mut headers = HttpHeaderList::from_pairs(&[("b", "2"), ("a", "1"), ("c", "3")]);
    headers.append("A", "one");
    headers.append("d", "4");
    let names: Vec<String> = headers.to_pairs().into_iter().map(|(n, _)| n).collect();
    assert_eq!(names, vec!["a", "b", "c", "d"]);
    assert_eq!(headers.get("a"), Some("1, one"));
    assert_eq!(headers.get("d"), Some("4"));
    assert!(!headers.is_empty());
    assert_eq!(headers.byte_len(), (1 + 6 + 4) + (1 + 1 + 4) + (1 + 1 + 4) + (1 + 1 + 4));
}

#[test]
fn contains_token_matches_list_items() {
    let headers = HttpHeaderList::from_pairs(&[("connection", "keep-alive, Upgrade")]);
    assert!(headers.contains_token("Connection", " upgrade "));
    assert!(!headers.contains_token("connection", "close"));
    assert!(!headers.contains_token("missing", "upgrade"));
}

#[test]
fn method_wire_text_and_safety() {
    for method in [
        HttpMethod::Get,
        HttpMethod::Head,
        HttpMethod::Post,
        HttpMethod::Put,
        HttpMethod::Patch,
        HttpMethod::Delete,
        HttpMethod::Options,
    ] {
        assert_eq!(HttpMethod::parse(method.as_str()), Some(method));
    }
    assert_eq!(HttpMethod::parse("  delete "), Some(HttpMethod::Delete));
    assert!(HttpMethod::Options.is_safe());
    assert!(!HttpMethod::Post.is_safe());
    assert!(HttpMethod::Post.rewrite_to_get_on_see_other());
    assert!(!HttpMethod::Head.rewrite_to_get_on_see_other());
    assert_eq!(HttpDestination::Style.accept_header(), "text/css,*/*;q=0.1");
    assert_eq!(HttpDestination::Worker.as_str(), "worker");
}

#[test]
fn mime_parse_rejects_bad_essences_and_keeps_last_charset() {
    assert!(HttpMimeType::parse("text html").is_none());
    assert!(HttpMimeType::parse("texthtml").is_none());
    assert!(HttpMimeType::parse("").is_none());
    let mime = HttpMimeType::parse(" Text/HTML ; charset=\"latin1\"; CHARSET=utf-8").unwrap();
    assert_eq!(mime.essence, "text/html");
    assert_eq!(mime.charset.as_deref(), Some("utf-8"));
    assert!(mime.is_html());
    assert!(HttpMimeType::new(" Application/X-JavaScript ").is_javascript());
}

#[test]
fn cache_control_later_directives_override_and_bad_numbers_clear() {
    let parsed = HttpCacheControl::parse("max-age=5, MAX-AGE=\"7\", stale-while-revalidate=x, private");
    assert_eq!(parsed.max_age_secs, Some(7));
    assert_eq!(parsed.stale_while_revalidate_secs, None);
    assert!(parsed.private);
    assert!(!parsed.public);
    let big = HttpCacheControl::parse("max-age=18446744073709551616");
    assert_eq!(big.max_age_secs, None);
}

#[test]
fn freshness_reasons_and_saturation() {
    let none = HttpHeaderList::new();
    let d = compute_freshness(500, &none, 10, 7);
    assert!(!d.storable);
    assert_eq!(d.reason, "status 500 is not cacheable");
    let d = compute_freshness(404, &none, 10, 7);
    assert!(d.storable);
    assert_eq!(d.expires_at_ms, 17);
    assert_eq!(d.reason, "default resource ttl");
    let expires = HttpHeaderList::from_pairs(&[("Expires", "tomorrow")]);
    assert_eq!(compute_freshness(200, &expires, 10, 7).reason, "Expires header");
    let huge = HttpHeaderList::from_pairs(&[("cache-control", "max-age=18446744073709551615, no-cache")]);
    let d = compute_freshness(200, &huge, 10, 7);
    assert_eq!(d.expires_at_ms, u64::MAX);
    assert!(d.revalidate_on_use);
    assert!(is_redirect_status(308) && !is_redirect_status(304));
    assert!(is_success_status(204) && !is_success_status(300));
    assert!(is_cacheable_status(410) && !is_cacheable_status(302));
}

#[test]
fn sniffing_falls_back_through_content_and_destination() {
    let none = HttpHeaderList::new();
    let html = sniff_mime(HttpDestination::Fetch, "https://x/a", &none, b" \n<!DOCTYPE HTML>");
    assert_eq!(html.essence, "text/html");
    let svg = sniff_mime(HttpDestination::Fetch, "https://x/a.SVG", &none, b"<svg>");
    assert_eq!(svg.essence, "image/svg+xml");
    let xml = sniff_mime(HttpDestination::Fetch, "https://x/a", &none, b"<?xml");
    assert_eq!(xml.essence, "application/xml");
    let webp = sniff_mime(HttpDestination::Fetch, "https://x/a", &none, b"RIFF0000WEBPxx");
    assert_eq!(webp.essence, "image/webp");
    let json = sniff_mime(HttpDestination::Fetch, "https://x/a", &none, b"  [1]");
    assert_eq!(json.essence, "application/json");
    let braces = sniff_mime(HttpDestination::Style, "https://x/a", &none, b"{}");
    assert_eq!(braces.essence, "application/json");
    let css = sniff_mime(HttpDestination::Style, "https://x/a", &none, b"p { }");
    assert_eq!(css.essence, "text/css");
    let other = sniff_mime(HttpDestination::Font, "https://x/a", &none, b"");
    assert_eq!(other.essence, "application/octet-stream");
    assert!(mime_allowed_for_destination(HttpDestination::Font, &other));
    let jpeg = sniff_mime(HttpDestination::Image, "https://x/photo.JPEG", &none, b"");
    assert_eq!(jpeg.essence, "image/jpeg");
    assert!(mime_allowed_for_destination(HttpDestination::Image, &jpeg));
    assert!(!mime_allowed_for_destination(HttpDestination::Media, &jpeg));
}
