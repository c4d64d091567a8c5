//! Parsed URLs, held together with their serialization.
//!
//! A `url::Url` is equal to another exactly when their serializations are
//! equal, so every question this library asks of a parsed URL is a function
//! of its serialization. A `ParsedUrl` keeps that serialization beside the
//! parsed value, and only the functions of this module build one.
use url::Url;
use vstd::prelude::*;

verus! {

#[verifier::external_type_specification]
#[verifier::external_body]
pub struct ExUrl(Url);

/// The serialization of the URL that `Url::parse` makes of `input`, or `None`
/// where the parser rejects it.
pub uninterp spec fn url_parse_spec(input: Seq<char>) -> Option<Seq<char>>;

/// The host (as `Url::host_str` gives it) of the URL with this serialization.
pub uninterp spec fn url_host_spec(serialization: Seq<char>) -> Option<Seq<char>>;

/// The serialization of `base.join(href)`, or `None` where the join fails.
pub uninterp spec fn url_join_spec(base: Seq<char>, href: Seq<char>) -> Option<Seq<char>>;

/// The serialization after `set_fragment(None)`.
pub uninterp spec fn url_without_fragment_spec(serialization: Seq<char>) -> Seq<char>;

/// The serialization after `set_query(None)`.
pub uninterp spec fn url_without_query_spec(serialization: Seq<char>) -> Seq<char>;

/// The part of `s` before the first `c`, or all of `s` where `c` does not occur.
pub open spec fn before_first(s: Seq<char>, c: char) -> Seq<char>
    decreases s.len(),
{
    if s.len() == 0 {
        s
    } else if s[0] == c {
        Seq::empty()
    } else {
        seq![s[0]] + before_first(s.drop_first(), c)
    }
}

/// The scheme of a serialized URL: the text before its first `:`.
pub open spec fn scheme_of(serialization: Seq<char>) -> Seq<char> {
    before_first(serialization, ':')
}

/// A URL as the `url` crate parsed it, with its serialization.
pub struct ParsedUrl {
    url: Url,
    text: String,
}

impl View for ParsedUrl {
    type V = Seq<char>;

    closed spec fn view(&self) -> Seq<char> {
        self.text@
    }
}

/// Calls `Url::parse`. Claimed: the result is `Some` exactly where
/// `url_parse_spec` has a serialization, and then carries that serialization;
/// that serialization parses to itself (the crate re-parses every URL's
/// serialization to the same URL, as its invariant check shows).
#[verifier::external_body]
pub(crate) fn parse_url(input: &str) -> (r: Option<ParsedUrl>)
    ensures
        r is Some <==> url_parse_spec(input@) is Some,
        r matches Some(u) ==> url_parse_spec(input@) == Some(u@),
        r matches Some(u) ==> url_parse_spec(u@) == Some(u@),
{
    match Url::parse(input) {
        Ok(url) => Some(ParsedUrl { text: url.as_str().to_string(), url }),
        Err(_) => None,
    }
}

/// Calls `Url::host_str`. Claimed: the host is `url_host_spec` of the
/// serialization.
#[verifier::external_body]
pub(crate) fn url_host(u: &ParsedUrl) -> (r: Option<String>)
    ensures
        r.deep_view() == url_host_spec(u@),
{
    u.url.host_str().map(|h| h.to_string())
}

/// Calls `Url::scheme`. Claimed (the crate documents the scheme as the text
/// before the `:` delimiter, with which every serialization begins): the
/// scheme is the serialization's text before its first `:`; and an `http` or
/// `https` URL, which always has a host, is serialized beginning with its
/// scheme and `://`.
#[verifier::external_body]
pub(crate) fn url_scheme(u: &ParsedUrl) -> (r: String)
    ensures
        r@ == scheme_of(u@),
        (r@ == "http"@ || r@ == "https"@) ==> (r@ + "://"@).is_prefix_of(u@),
{
    u.url.scheme().to_string()
}

/// Calls `Url::join`. Claimed: the result is `Some` exactly where
/// `url_join_spec` of the base's serialization and `href` is, and then
/// carries that serialization, which parses to itself.
#[verifier::external_body]
pub(crate) fn url_join(base: &ParsedUrl, href: &str) -> (r: Option<ParsedUrl>)
    ensures
        r is Some <==> url_join_spec(base@, href@) is Some,
        r matches Some(u) ==> url_join_spec(base@, href@) == Some(u@),
        r matches Some(u) ==> url_parse_spec(u@) == Some(u@),
{
    match base.url.join(href) {
        Ok(url) => Some(ParsedUrl { text: url.as_str().to_string(), url }),
        Err(_) => None,
    }
}

/// Calls `Url::set_fragment(None)`. Claimed: the new serialization is
/// `url_without_fragment_spec` of the old one; the change only truncates
/// after the path, so the host stays; the result still parses to itself; and
/// clearing again changes nothing.
#[verifier::external_body]
pub(crate) fn url_clear_fragment(u: &mut ParsedUrl)
    ensures
        final(u)@ == url_without_fragment_spec(old(u)@),
        url_host_spec(final(u)@) == url_host_spec(old(u)@),
        url_parse_spec(final(u)@) == Some(final(u)@),
        url_without_fragment_spec(final(u)@) == final(u)@,
{
    u.url.set_fragment(None);
    u.text = u.url.as_str().to_string();
}

/// Calls `Url::set_query(None)`. Claimed: the new serialization is
/// `url_without_query_spec` of the old one; the change only touches what
/// follows the path, so the host stays; the result still parses to itself;
/// clearing again changes nothing; and a URL without a fragment to clear
/// keeps having none.
#[verifier::external_body]
pub(crate) fn url_clear_query(u: &mut ParsedUrl)
    ensures
        final(u)@ == url_without_query_spec(old(u)@),
        url_host_spec(final(u)@) == url_host_spec(old(u)@),
        url_parse_spec(final(u)@) == Some(final(u)@),
        url_without_query_spec(final(u)@) == final(u)@,
        url_without_fragment_spec(old(u)@) == old(u)@ ==> url_without_fragment_spec(final(u)@)
            == final(u)@,
{
    u.url.set_query(None);
    u.text = u.url.as_str().to_string();
}

impl ParsedUrl {
    /// The serialization, as `Url::to_string` gives it.
    pub fn to_text(&self) -> (r: String)
        ensures
            r@ == self@,
    {
        self.text.clone()
    }
}

} // verus!
