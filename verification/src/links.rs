//! Link handling for a crawler that stays on one domain: resolving links
//! against the page they appear on, reading a URL's domain, normalizing
//! URLs, and collecting the same-domain links of a page.
use crate::html::{html_attr_values_spec, select_attr_values};
use crate::text::{contains_run, contains_text, has_prefix, list_has, same_text, texts};
use crate::url_model::{
    parse_url, scheme_of, url_clear_fragment, url_clear_query, url_host, url_host_spec, url_join,
    url_join_spec, url_parse_spec, url_scheme, url_without_fragment_spec, url_without_query_spec,
};
use vstd::prelude::*;

verus! {

/// Why links could not be read from a page.
#[derive(Debug, Clone, PartialEq, Eq)]
pub enum LinkError {
    /// The CSS selector naming the elements does not parse.
    BadSelector,
}

/// The host of the URL that `url` parses to.
pub open spec fn domain_of(url: Seq<char>) -> Option<Seq<char>> {
    match url_parse_spec(url) {
        Some(s) => url_host_spec(s),
        None => None,
    }
}

/// Links that lead to no page: mail, telephone and script links, and anchors.
pub open spec fn is_ignored_link(href: Seq<char>) -> bool {
    ||| "mailto:"@.is_prefix_of(href)
    ||| "tel:"@.is_prefix_of(href)
    ||| "javascript:"@.is_prefix_of(href)
    ||| "#"@.is_prefix_of(href)
}

/// Links that are already absolute HTTP(S) URLs.
pub open spec fn is_absolute_http(href: Seq<char>) -> bool {
    "http://"@.is_prefix_of(href) || "https://"@.is_prefix_of(href)
}

/// The link `href` found on the page `base`, as an absolute HTTP(S) URL.
pub open spec fn resolve_link_spec(base: Seq<char>, href: Seq<char>) -> Option<Seq<char>> {
    if is_ignored_link(href) {
        None
    } else if is_absolute_http(href) {
        Some(href)
    } else {
        match url_parse_spec(base) {
            Some(b) => match url_join_spec(b, href) {
                Some(full) => if scheme_of(full) == "http"@ || scheme_of(full) == "https"@ {
                    Some(full)
                } else {
                    None
                },
                None => None,
            },
            None => None,
        }
    }
}

/// The URL without its fragment and its query.
pub open spec fn normalize_spec(url: Seq<char>) -> Option<Seq<char>> {
    match url_parse_spec(url) {
        Some(s) => Some(url_without_query_spec(url_without_fragment_spec(s))),
        None => None,
    }
}

/// An attribute value found on page `base`, kept where it resolves to a URL on
/// the domain `domain`.
pub open spec fn same_domain_link(
    base: Seq<char>,
    domain: Seq<char>,
    value: Option<Seq<char>>,
) -> Option<Seq<char>> {
    match value {
        Some(v) => match resolve_link_spec(base, v) {
            Some(r) => if domain_of(r) == Some(domain) {
                Some(r)
            } else {
                None
            },
            None => None,
        },
        None => None,
    }
}

/// The same-domain links among attribute values, in order.
pub open spec fn same_domain_links(
    base: Seq<char>,
    domain: Seq<char>,
    values: Seq<Option<Seq<char>>>,
) -> Seq<Seq<char>>
    decreases values.len(),
{
    if values.len() == 0 {
        Seq::empty()
    } else {
        let rest = same_domain_links(base, domain, values.drop_last());
        match same_domain_link(base, domain, values.last()) {
            Some(r) => rest.push(r),
            None => rest,
        }
    }
}

/// The links of the elements `selector` of the document `html` that carry the
/// attribute `attr`, resolved against `base` and kept where on `domain`; no
/// links where the selector does not parse.
pub open spec fn element_links(
    html: Seq<char>,
    base: Seq<char>,
    domain: Seq<char>,
    selector: Seq<char>,
    attr: Seq<char>,
) -> Seq<Seq<char>> {
    match html_attr_values_spec(html, selector, attr) {
        Some(values) => same_domain_links(base, domain, values),
        None => Seq::empty(),
    }
}

/// The host of the URL `url_str`, if it parses and has one.
pub fn get_orig_domain(url_str: &str) -> (r: Option<String>)
    ensures
        r.deep_view() == domain_of(url_str@),
{
    match parse_url(url_str) {
        Some(u) => url_host(&u),
        None => None,
    }
}

/// The link `href` found on the page `base_url`, as an absolute HTTP(S) URL:
/// `None` for mail, telephone and script links and anchors, the link itself
/// where it is already an absolute HTTP(S) URL, else the link joined to the
/// page's URL where that gives an HTTP(S) URL.
pub fn resolve_link(base_url: &str, href: &str) -> (r: Option<String>)
    ensures
        r.deep_view() == resolve_link_spec(base_url@, href@),
        r matches Some(s) ==> ("http://"@.is_prefix_of(s@) || "https://"@.is_prefix_of(s@)),
{
    if has_prefix(href, "mailto:") || has_prefix(href, "tel:") || has_prefix(href, "javascript:")
        || has_prefix(href, "#") {
        return None;
    }
    if has_prefix(href, "http://") || has_prefix(href, "https://") {
        return Some(href.to_string());
    }
    match parse_url(base_url) {
        Some(base) => match url_join(&base, href) {
            Some(full) => {
                let scheme: String = url_scheme(&full);
                if same_text(scheme.as_str(), "http") || same_text(scheme.as_str(), "https") {
                    proof {
                        reveal_strlit("http");
                        reveal_strlit("https");
                        reveal_strlit("://");
                        reveal_strlit("http://");
                        reveal_strlit("https://");
                        assert("http"@ + "://"@ =~= "http://"@);
                        assert("https"@ + "://"@ =~= "https://"@);
                    }
                    Some(full.to_text())
                } else {
                    None
                }
            },
            None => None,
        },
        None => None,
    }
}

/// The URL without its fragment (anchor) and its query, if it parses.
pub fn normalize_url(url: &str) -> (r: Option<String>)
    ensures
        r.deep_view() == normalize_spec(url@),
        r matches Some(n) ==> domain_of(n@) == domain_of(url@),
        r matches Some(n) ==> normalize_spec(n@) == Some(n@),
{
    match parse_url(url) {
        Some(parsed) => {
            let mut parsed = parsed;
            url_clear_fragment(&mut parsed);
            url_clear_query(&mut parsed);
            Some(parsed.to_text())
        },
        None => None,
    }
}

/// The distinct links that the elements `element` of the page `html` (found
/// at `curr_link`) carry in their attribute `attr`, resolved against the page
/// and kept where they lead to the domain `orig_domain`.
pub fn extract_links_from_element(
    html: &str,
    curr_link: &str,
    orig_domain: &str,
    element: &str,
    attr: &str,
) -> (r: Result<Vec<String>, LinkError>)
    ensures
        r is Err <==> html_attr_values_spec(html@, element@, attr@) is None,
        r matches Err(e) ==> e == LinkError::BadSelector,
        r matches Ok(links) ==> {
            &&& texts(links@).no_duplicates()
            &&& texts(links@).to_set() == element_links(
                html@,
                curr_link@,
                orig_domain@,
                element@,
                attr@,
            ).to_set()
        },
{
    let values: Vec<Option<String>> = match select_attr_values(html, element, attr) {
        Some(v) => v,
        None => return Err(LinkError::BadSelector),
    };
    let ghost vals: Seq<Option<Seq<char>>> = values.deep_view();
    let mut found: Vec<String> = Vec::new();
    let mut i: usize = 0;
    while i < values.len()
        invariant
            i <= values@.len(),
            vals == values.deep_view(),
            vals == html_attr_values_spec(html@, element@, attr@)->Some_0,
            texts(found@).no_duplicates(),
            texts(found@).to_set() == same_domain_links(
                curr_link@,
                orig_domain@,
                vals.take(i as int),
            ).to_set(),
        decreases values@.len() - i,
    {
        proof {
            assert(vals.take(i + 1).drop_last() =~= vals.take(i as int));
            assert(vals.take(i + 1).last() == vals[i as int]);
        }
        let ghost before: Seq<Seq<char>> = texts(found@);
        match &values[i] {
            Some(link) => {
                match resolve_link(curr_link, link.as_str()) {
                    Some(resolved) => {
                        match get_orig_domain(resolved.as_str()) {
                            Some(domain) => {
                                if same_text(domain.as_str(), orig_domain) {
                                    if !list_has(&found, resolved.as_str()) {
                                        found.push(resolved);
                                        proof {
                                            assert(texts(found@) =~= before.push(resolved@));
                                            before.lemma_push_to_set_commute(resolved@);
                                        }
                                    } else {
                                        proof {
                                            assert(before.to_set().insert(resolved@) =~= before.to_set());
                                        }
                                    }
                                    proof {
                                        let ghost prev = same_domain_links(
                                            curr_link@,
                                            orig_domain@,
                                            vals.take(i as int),
                                        );
                                        prev.lemma_push_to_set_commute(resolved@);
                                    }
                                }
                            },
                            None => {},
                        }
                    },
                    None => {},
                }
            },
            None => {},
        }
        i += 1;
    }
    proof {
        assert(vals.take(vals.len() as int) =~= vals);
    }
    Ok(found)
}

/// An attribute value found on page `base`, as a link to follow: kept where it
/// is not empty, not a mail, telephone or script link or an anchor, resolves
/// to a URL on `domain`, and normalizes.
pub open spec fn page_link(base: Seq<char>, domain: Seq<char>, value: Option<Seq<char>>) -> Option<
    Seq<char>,
> {
    match value {
        Some(v) => if v.len() == 0 || is_ignored_link(v) {
            None
        } else {
            match resolve_link_spec(base, v) {
                Some(r) => if domain_of(r) == Some(domain) {
                    normalize_spec(r)
                } else {
                    None
                },
                None => None,
            }
        },
        None => None,
    }
}

/// The links to follow among attribute values, in order.
pub open spec fn page_links_of(
    base: Seq<char>,
    domain: Seq<char>,
    values: Seq<Option<Seq<char>>>,
) -> Seq<Seq<char>>
    decreases values.len(),
{
    if values.len() == 0 {
        Seq::empty()
    } else {
        let rest = page_links_of(base, domain, values.drop_last());
        match page_link(base, domain, values.last()) {
            Some(r) => rest.push(r),
            None => rest,
        }
    }
}

/// The links to follow from the elements `selector` with attribute `attr`;
/// none where the selector does not parse.
pub open spec fn selector_page_links(
    html: Seq<char>,
    base: Seq<char>,
    domain: Seq<char>,
    selector: Seq<char>,
    attr: Seq<char>,
) -> Seq<Seq<char>> {
    match html_attr_values_spec(html, selector, attr) {
        Some(values) => page_links_of(base, domain, values),
        None => Seq::empty(),
    }
}

/// The links to follow from a page: those of its `a` elements' `href`, then
/// those of its `iframe` elements' `src`.
pub open spec fn page_links_spec(html: Seq<char>, base: Seq<char>, domain: Seq<char>) -> Seq<
    Seq<char>,
> {
    selector_page_links(html, base, domain, "a"@, "href"@) + selector_page_links(
        html,
        base,
        domain,
        "iframe"@,
        "src"@,
    )
}

/// How a fetched page is treated.
#[derive(Debug, Clone, Copy, PartialEq, Eq)]
pub enum PageResponse {
    /// The server answered with a status outside 200..=299.
    Failed,
    /// The page is not HTML: it yields no links.
    NotHtml,
    /// An HTML page whose links are read.
    Html,
}

/// The treatment of a response with this status and `Content-Type` (empty
/// where the header is missing or unreadable).
pub open spec fn page_response_spec(status: u16, content_type: Seq<char>) -> PageResponse {
    if !(200 <= status <= 299) {
        PageResponse::Failed
    } else if !contains_run(content_type, "text/html"@) {
        PageResponse::NotHtml
    } else {
        PageResponse::Html
    }
}

/// Decides how a fetched page is treated: failed unless the status is a
/// success, skipped unless its content type names `text/html`.
pub fn page_response(status: u16, content_type: &str) -> (r: PageResponse)
    ensures
        r == page_response_spec(status, content_type@),
        (status < 200 || status > 299) <==> r == PageResponse::Failed,
{
    if !(200 <= status && status <= 299) {
        PageResponse::Failed
    } else if !contains_text(content_type, "text/html") {
        PageResponse::NotHtml
    } else {
        PageResponse::Html
    }
}

/// A link as the crawl follows it: on `domain`, and already normalized.
pub open spec fn is_followable(link: Seq<char>, domain: Seq<char>) -> bool {
    domain_of(link) == Some(domain) && normalize_spec(link) == Some(link)
}

/// Appends to `out` the links to follow among the values of `attr` on the
/// elements `selector` of the page `html` found at `page_url`.
fn push_page_links(
    out: &mut Vec<String>,
    html: &str,
    page_url: &str,
    orig_domain: &str,
    selector: &str,
    attr: &str,
)
    requires
        forall|k: int|
            0 <= k < texts(old(out)@).len() ==> is_followable(
                #[trigger] texts(old(out)@)[k],
                orig_domain@,
            ),
    ensures
        forall|k: int|
            0 <= k < texts(final(out)@).len() ==> is_followable(
                #[trigger] texts(final(out)@)[k],
                orig_domain@,
            ),
        texts(final(out)@) == texts(old(out)@) + selector_page_links(
            html@,
            page_url@,
            orig_domain@,
            selector@,
            attr@,
        ),
{
    let values: Vec<Option<String>> = match select_attr_values(html, selector, attr) {
        Some(v) => v,
        None => {
            assert(texts(out@) =~= texts(out@) + Seq::<Seq<char>>::empty());
            return ;
        },
    };
    let ghost vals: Seq<Option<Seq<char>>> = values.deep_view();
    let ghost start: Seq<Seq<char>> = texts(out@);
    let mut i: usize = 0;
    while i < values.len()
        invariant
            i <= values@.len(),
            vals == values.deep_view(),
            vals == html_attr_values_spec(html@, selector@, attr@)->Some_0,
            texts(out@) == start + page_links_of(page_url@, orig_domain@, vals.take(i as int)),
            forall|k: int|
                0 <= k < texts(out@).len() ==> is_followable(#[trigger] texts(out@)[k], orig_domain@),
        decreases values@.len() - i,
    {
        proof {
            assert(vals.take(i + 1).drop_last() =~= vals.take(i as int));
            assert(vals.take(i + 1).last() == vals[i as int]);
        }
        let ghost before: Seq<Seq<char>> = texts(out@);
        match &values[i] {
            Some(value) => {
                let v: &str = value.as_str();
                let skip: bool = v.unicode_len() == 0 || has_prefix(v, "javascript:") || has_prefix(
                    v,
                    "mailto:",
                ) || has_prefix(v, "tel:") || has_prefix(v, "#");
                if !skip {
                    match resolve_link(page_url, v) {
                        Some(resolved) => match get_orig_domain(resolved.as_str()) {
                            Some(domain) => if same_text(domain.as_str(), orig_domain) {
                                match normalize_url(resolved.as_str()) {
                                    Some(normalized) => {
                                        out.push(normalized);
                                        proof {
                                            assert(texts(out@) =~= before.push(normalized@));
                                            assert(is_followable(before.push(normalized@).last(), orig_domain@));
                                        }
                                    },
                                    None => {},
                                }
                            },
                            None => {},
                        },
                        None => {},
                    }
                }
            },
            None => {},
        }
        proof {
            assert(start + page_links_of(page_url@, orig_domain@, vals.take(i + 1)) =~= texts(out@));
        }
        i += 1;
    }
    proof {
        assert(vals.take(vals.len() as int) =~= vals);
    }
}

/// The links to follow from the page `html` found at `page_url`: the values of
/// the `href` of its `a` elements and of the `src` of its `iframe` elements, in
/// that order, that are not empty, not mail, telephone or script links or
/// anchors, resolve to a URL on `orig_domain`, and normalize (without
/// fragment and query).
pub fn page_links(page_url: &str, html: &str, orig_domain: &str) -> (r: Vec<String>)
    ensures
        texts(r@) == page_links_spec(html@, page_url@, orig_domain@),
        forall|k: int| 0 <= k < texts(r@).len() ==> is_followable(#[trigger] texts(r@)[k], orig_domain@),
{
    let mut out: Vec<String> = Vec::new();
    assert(texts(out@) =~= Seq::<Seq<char>>::empty());
    push_page_links(&mut out, html, page_url, orig_domain, "a", "href");
    push_page_links(&mut out, html, page_url, orig_domain, "iframe", "src");
    assert(texts(out@) =~= page_links_spec(html@, page_url@, orig_domain@));
    out
}

/// `v` begins with `http://` or `https://`.
proof fn lemma_absolute_not_ignored(v: Seq<char>)
    requires
        "http://"@.is_prefix_of(v) || "https://"@.is_prefix_of(v),
    ensures
        v.len() > 0,
        !"mailto:"@.is_prefix_of(v),
        !"tel:"@.is_prefix_of(v),
        !"javascript:"@.is_prefix_of(v),
        !"#"@.is_prefix_of(v),
{
    reveal_strlit("http://");
    reveal_strlit("https://");
    reveal_strlit("mailto:");
    reveal_strlit("tel:");
    reveal_strlit("javascript:");
    reveal_strlit("#");
    if "http://"@.is_prefix_of(v) {
        assert(v.subrange(0, 7)[0] == "http://"@[0]);
    } else {
        assert(v.subrange(0, 8)[0] == "https://"@[0]);
    }
    assert(v[0] == 'h');
    if "mailto:"@.is_prefix_of(v) {
        assert(v.subrange(0, 7)[0] == "mailto:"@[0]);
    }
    if "tel:"@.is_prefix_of(v) {
        assert(v.subrange(0, 4)[0] == "tel:"@[0]);
    }
    if "javascript:"@.is_prefix_of(v) {
        assert(v.subrange(0, 11)[0] == "javascript:"@[0]);
    }
    if "#"@.is_prefix_of(v) {
        assert(v.subrange(0, 1)[0] == "#"@[0]);
    }
    assert("mailto:"@[0] == 'm');
    assert("tel:"@[0] == 't');
    assert("javascript:"@[0] == 'j');
    assert("#"@[0] == '#');
}

/// How a link found on a page resolves: mail, telephone and script links and
/// anchors give nothing; an absolute `http://` or `https://` link is kept as
/// written; any other link, on a page whose URL parses, gives that URL
/// joined with the link whenever the join is an HTTP(S) URL.
pub proof fn lemma_resolve_link_cases(base: Seq<char>, href: Seq<char>)
    ensures
        "mailto:"@.is_prefix_of(href) ==> resolve_link_spec(base, href) is None,
        "tel:"@.is_prefix_of(href) ==> resolve_link_spec(base, href) is None,
        "javascript:"@.is_prefix_of(href) ==> resolve_link_spec(base, href) is None,
        "#"@.is_prefix_of(href) ==> resolve_link_spec(base, href) is None,
        ("http://"@.is_prefix_of(href) || "https://"@.is_prefix_of(href)) ==> resolve_link_spec(
            base,
            href,
        ) == Some(href),
        ({
            &&& !"mailto:"@.is_prefix_of(href)
            &&& !"tel:"@.is_prefix_of(href)
            &&& !"javascript:"@.is_prefix_of(href)
            &&& !"#"@.is_prefix_of(href)
            &&& !"http://"@.is_prefix_of(href)
            &&& !"https://"@.is_prefix_of(href)
            &&& url_parse_spec(base) is Some
            &&& url_join_spec(url_parse_spec(base)->Some_0, href) is Some
            &&& (scheme_of(url_join_spec(url_parse_spec(base)->Some_0, href)->Some_0) == "http"@
                || scheme_of(url_join_spec(url_parse_spec(base)->Some_0, href)->Some_0)
                == "https"@)
        }) ==> resolve_link_spec(base, href) == url_join_spec(url_parse_spec(base)->Some_0, href),
{
    if "http://"@.is_prefix_of(href) || "https://"@.is_prefix_of(href) {
        lemma_absolute_not_ignored(href);
    }
}

/// A value whose link is kept appears among the same-domain links.
proof fn lemma_same_domain_links_keep(
    base: Seq<char>,
    domain: Seq<char>,
    values: Seq<Option<Seq<char>>>,
    j: int,
)
    requires
        0 <= j < values.len(),
        same_domain_link(base, domain, values[j]) is Some,
    ensures
        same_domain_links(base, domain, values).contains(
            same_domain_link(base, domain, values[j])->Some_0,
        ),
    decreases values.len(),
{
    let r: Seq<char> = same_domain_link(base, domain, values[j])->Some_0;
    let rest: Seq<Seq<char>> = same_domain_links(base, domain, values.drop_last());
    if j == values.len() - 1 {
        assert(rest.push(r)[rest.len() as int] == r);
    } else {
        assert(values.drop_last()[j] == values[j]);
        lemma_same_domain_links_keep(base, domain, values.drop_last(), j);
        let k: int = choose|k: int| 0 <= k < rest.len() && rest[k] == r;
        match same_domain_link(base, domain, values.last()) {
            Some(x) => assert(rest.push(x)[k] == r),
            None => {},
        }
    }
}

/// A value whose link is followed appears among the page's links.
proof fn lemma_page_links_of_keep(
    base: Seq<char>,
    domain: Seq<char>,
    values: Seq<Option<Seq<char>>>,
    j: int,
)
    requires
        0 <= j < values.len(),
        page_link(base, domain, values[j]) is Some,
    ensures
        page_links_of(base, domain, values).contains(page_link(base, domain, values[j])->Some_0),
    decreases values.len(),
{
    let r: Seq<char> = page_link(base, domain, values[j])->Some_0;
    let rest: Seq<Seq<char>> = page_links_of(base, domain, values.drop_last());
    if j == values.len() - 1 {
        assert(rest.push(r)[rest.len() as int] == r);
    } else {
        assert(values.drop_last()[j] == values[j]);
        lemma_page_links_of_keep(base, domain, values.drop_last(), j);
        let k: int = choose|k: int| 0 <= k < rest.len() && rest[k] == r;
        match page_link(base, domain, values.last()) {
            Some(x) => assert(rest.push(x)[k] == r),
            None => {},
        }
    }
}

/// Every attribute value of the selected elements that resolves, from the
/// page `base`, to a URL whose host is `domain` is among the same-domain
/// links; in particular an absolute `http://` or `https://` value whose host
/// is `domain` is kept as written.
pub proof fn lemma_element_links_keep_same_domain(
    html: Seq<char>,
    base: Seq<char>,
    domain: Seq<char>,
    selector: Seq<char>,
    attr: Seq<char>,
    j: int,
    v: Seq<char>,
)
    requires
        html_attr_values_spec(html, selector, attr) is Some,
        0 <= j < html_attr_values_spec(html, selector, attr)->Some_0.len(),
        html_attr_values_spec(html, selector, attr)->Some_0[j] == Some(v),
    ensures
        ("http://"@.is_prefix_of(v) || "https://"@.is_prefix_of(v)) && domain_of(v) == Some(domain)
            ==> element_links(html, base, domain, selector, attr).contains(v),
        resolve_link_spec(base, v) is Some && domain_of(resolve_link_spec(base, v)->Some_0) == Some(
            domain,
        ) ==> element_links(html, base, domain, selector, attr).contains(
            resolve_link_spec(base, v)->Some_0,
        ),
{
    let values: Seq<Option<Seq<char>>> = html_attr_values_spec(html, selector, attr)->Some_0;
    lemma_resolve_link_cases(base, v);
    if resolve_link_spec(base, v) is Some && domain_of(resolve_link_spec(base, v)->Some_0) == Some(
        domain,
    ) {
        lemma_same_domain_links_keep(base, domain, values, j);
    }
}

/// Every attribute value of a page's `a` elements' `href` or `iframe`
/// elements' `src` that is not empty, not a mail, telephone or script link or
/// an anchor, and resolves to a URL whose host is `domain`, is followed in its
/// normalized form; in particular an absolute `http://` or `https://` value
/// whose host is `domain` is followed, normalized.
pub proof fn lemma_page_links_keep_same_domain(
    html: Seq<char>,
    base: Seq<char>,
    domain: Seq<char>,
    selector: Seq<char>,
    attr: Seq<char>,
    j: int,
    v: Seq<char>,
)
    requires
        (selector == "a"@ && attr == "href"@) || (selector == "iframe"@ && attr == "src"@),
        html_attr_values_spec(html, selector, attr) is Some,
        0 <= j < html_attr_values_spec(html, selector, attr)->Some_0.len(),
        html_attr_values_spec(html, selector, attr)->Some_0[j] == Some(v),
    ensures
        ("http://"@.is_prefix_of(v) || "https://"@.is_prefix_of(v)) && domain_of(v) == Some(domain)
            && normalize_spec(v) is Some ==> page_links_spec(html, base, domain).contains(
            normalize_spec(v)->Some_0,
        ),
        ({
            &&& v.len() > 0
            &&& !"mailto:"@.is_prefix_of(v)
            &&& !"tel:"@.is_prefix_of(v)
            &&& !"javascript:"@.is_prefix_of(v)
            &&& !"#"@.is_prefix_of(v)
            &&& resolve_link_spec(base, v) is Some
            &&& domain_of(resolve_link_spec(base, v)->Some_0) == Some(domain)
            &&& normalize_spec(resolve_link_spec(base, v)->Some_0) is Some
        }) ==> page_links_spec(html, base, domain).contains(
            normalize_spec(resolve_link_spec(base, v)->Some_0)->Some_0,
        ),
{
    let values: Seq<Option<Seq<char>>> = html_attr_values_spec(html, selector, attr)->Some_0;
    let a: Seq<Seq<char>> = selector_page_links(html, base, domain, "a"@, "href"@);
    let f: Seq<Seq<char>> = selector_page_links(html, base, domain, "iframe"@, "src"@);
    if "http://"@.is_prefix_of(v) || "https://"@.is_prefix_of(v) {
        lemma_absolute_not_ignored(v);
        lemma_resolve_link_cases(base, v);
    }
    if page_link(base, domain, Some(v)) is Some {
        let n: Seq<char> = page_link(base, domain, Some(v))->Some_0;
        lemma_page_links_of_keep(base, domain, values, j);
        let k: int = choose|k: int|
            0 <= k < page_links_of(base, domain, values).len() && page_links_of(
                base,
                domain,
                values,
            )[k] == n;
        if selector == "a"@ && attr == "href"@ {
            assert((a + f)[k] == n);
        } else {
            assert((a + f)[a.len() + k] == n);
        }
    }
}

/// A response whose status is outside 200..=299 has failed, whatever its
/// content type; one within that range is read as HTML exactly when its
/// content type holds `text/html`, and is otherwise skipped.
pub proof fn lemma_page_response_status(status: u16, content_type: Seq<char>)
    ensures
        (status < 200 || status > 299) ==> page_response_spec(status, content_type)
            == PageResponse::Failed,
        200 <= status <= 299 ==> page_response_spec(status, content_type) != PageResponse::Failed,
        200 <= status <= 299 ==> (page_response_spec(status, content_type) == PageResponse::Html
            <==> contains_run(content_type, "text/html"@)),
{
}

} // verus!
