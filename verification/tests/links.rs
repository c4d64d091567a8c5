use py_interop::links::{
    extract_links_from_element, get_orig_domain, normalize_url, page_links, page_response,
    resolve_link, LinkError, PageResponse,
};

#[test]
fn test_get_orig_domain() {
    assert_eq!(
        get_orig_domain("http://a.b.c.com"),
        Some("a.b.c.com".to_string())
    );
    assert_eq!(
        get_orig_domain("http://a.b.c.com/"),
        Some("a.b.c.com".to_string())
    );
    assert_eq!(
        get_orig_domain("http://a.b.c.com/d"),
        Some("a.b.c.com".to_string())
    );
    assert_eq!(
        get_orig_domain("https://a.b.c.com/d"),
        Some("a.b.c.com".to_string())
    );
    assert_eq!(
        get_orig_domain("https://a.b.c.com/d/"),
        Some("a.b.c.com".to_string())
    );
    assert_eq!(
        get_orig_domain("https://a.b.c.com/d/?"),
        Some("a.b.c.com".to_string())
    );
    assert_eq!(
        get_orig_domain("https://a.b.c.com/d/?e"),
        Some("a.b.c.com".to_string())
    );
    assert_eq!(
        get_orig_domain("https://a.b.c.com/d/?e="),
        Some("a.b.c.com".to_string())
    );
    assert_eq!(
        get_orig_domain("https://a.b.c.com/d/?e=f"),
        Some("a.b.c.com".to_string())
    );
    assert_eq!(
        get_orig_domain("https://a.b.c.com/d/?e=f#g=h"),
        Some("a.b.c.com".to_string())
    );
}

#[test]
fn orig_domain_of_invalid_or_hostless_url() {
    assert_eq!(get_orig_domain("not a url"), None);
    assert_eq!(get_orig_domain("mailto:someone@example.com"), None);
    assert_eq!(get_orig_domain(""), None);
}

#[test]
fn resolve_link_skips_non_page_links() {
    assert_eq!(resolve_link("http://a.com/x", "mailto:me@a.com"), None);
    assert_eq!(resolve_link("http://a.com/x", "tel:123"), None);
    assert_eq!(resolve_link("http://a.com/x", "javascript:void(0)"), None);
    assert_eq!(resolve_link("http://a.com/x", "#top"), None);
}

#[test]
fn resolve_link_keeps_absolute_links_as_given() {
    assert_eq!(
        resolve_link("http://a.com/x", "https://b.org/page?q=1"),
        Some("https://b.org/page?q=1".to_string())
    );
    // Absolute links are returned unchanged, even without a parsable base.
    assert_eq!(
        resolve_link("not a url", "http://b.org"),
        Some("http://b.org".to_string())
    );
}

#[test]
fn resolve_link_joins_relative_links() {
    assert_eq!(
        resolve_link("http://a.com/dir/page", "other"),
        Some("http://a.com/dir/other".to_string())
    );
    assert_eq!(
        resolve_link("http://a.com/dir/page", "/root"),
        Some("http://a.com/root".to_string())
    );
    assert_eq!(
        resolve_link("https://a.com/dir/", "../up?x=1"),
        Some("https://a.com/up?x=1".to_string())
    );
}

#[test]
fn resolve_link_refuses_non_http_results() {
    assert_eq!(resolve_link("http://a.com/", "ftp://a.com/file"), None);
    assert_eq!(resolve_link("not a url", "relative"), None);
}

#[test]
fn normalize_url_drops_fragment_and_query() {
    assert_eq!(
        normalize_url("http://example.com#section"),
        Some("http://example.com/".to_string())
    );
    assert_eq!(
        normalize_url("https://a.com/p?x=1#y"),
        Some("https://a.com/p".to_string())
    );
    assert_eq!(normalize_url("http://a.com/p"), Some("http://a.com/p".to_string()));
    assert_eq!(normalize_url("::"), None);
}

const PAGE: &str = r##"<html><body>
<a href="/y">y</a>
<a href="http://other.com/z">z</a>
<a href="/y#frag">y again</a>
<a href="mailto:x@a.com">mail</a>
<a>no link</a>
<a href="">empty</a>
<iframe src="/w?q=1"></iframe>
</body></html>"##;

#[test]
fn extract_links_from_element_keeps_same_domain_links_once() {
    let mut links = extract_links_from_element(PAGE, "http://a.com/x", "a.com", "a", "href").unwrap();
    links.sort();
    assert_eq!(
        links,
        vec![
            "http://a.com/x".to_string(),
            "http://a.com/y".to_string(),
            "http://a.com/y#frag".to_string(),
        ]
    );
    let frames = extract_links_from_element(PAGE, "http://a.com/x", "a.com", "iframe", "src").unwrap();
    assert_eq!(frames, vec!["http://a.com/w?q=1".to_string()]);
}

#[test]
fn extract_links_from_element_reports_bad_selector() {
    assert_eq!(
        extract_links_from_element(PAGE, "http://a.com/x", "a.com", "[[", "href"),
        Err(LinkError::BadSelector)
    );
}

#[test]
fn page_links_follow_document_order_and_normalize() {
    let links = page_links("http://a.com/x", PAGE, "a.com");
    assert_eq!(
        links,
        vec![
            "http://a.com/y".to_string(),
            "http://a.com/y".to_string(),
            "http://a.com/w".to_string(),
        ]
    );
}

#[test]
fn page_response_classifies_status_and_type() {
    assert_eq!(page_response(404, "text/html"), PageResponse::Failed);
    assert_eq!(page_response(500, ""), PageResponse::Failed);
    assert_eq!(page_response(199, "text/html"), PageResponse::Failed);
    assert_eq!(page_response(200, "application/json"), PageResponse::NotHtml);
    assert_eq!(page_response(204, ""), PageResponse::NotHtml);
    assert_eq!(page_response(200, "text/html; charset=utf-8"), PageResponse::Html);
    assert_eq!(page_response(299, "text/html"), PageResponse::Html);
}

#[test]
fn resolved_links_begin_with_an_http_scheme() {
    for (base, href) in [
        ("http://a.com/dir/page", "other"),
        ("https://a.com/dir/", "../up?x=1"),
        ("HTTP://A.COM/x", "/root"),
        ("http://a.com/x", "//b.org/p"),
    ] {
        let r = resolve_link(base, href).unwrap();
        assert!(r.starts_with("http://") || r.starts_with("https://"), "{}", r);
    }
    assert_eq!(resolve_link("HTTP://A.COM/x", "/root"), Some("http://a.com/root".to_string()));
    assert_eq!(resolve_link("http://a.com/x", "//b.org/p"), Some("http://b.org/p".to_string()));
}

#[test]
fn page_links_are_normalized_and_on_the_domain() {
    for link in page_links("http://a.com/x", PAGE, "a.com") {
        assert_eq!(get_orig_domain(&link), Some("a.com".to_string()));
        assert_eq!(normalize_url(&link), Some(link.clone()));
    }
}

#[test]
fn normalizing_twice_changes_nothing() {
    for url in ["http://example.com#section", "https://a.com/p?x=1#y", "http://A.com:80/q?"] {
        let once = normalize_url(url).unwrap();
        assert_eq!(normalize_url(&once), Some(once.clone()));
        assert_eq!(get_orig_domain(&once), get_orig_domain(url));
    }
}
