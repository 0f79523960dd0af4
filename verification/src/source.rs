//! Where an atom comes from, told from its source URL.

use crate::text::{chars_of, string_of_range, starts_with, text_eq};
use vstd::prelude::*;

verus! {

/// What is read off a URL.
#[derive(Debug)]
pub struct ParsedUrl {
    pub scheme: String,
    pub host: Option<String>,
}

/// Scheme and host of a text that is a URL; nothing if it is none.
pub uninterp spec fn url_parts(text: Seq<char>) -> Option<(Seq<char>, Option<Seq<char>>)>;

/// What is read off a URL.
pub open spec fn parts_view(p: Option<ParsedUrl>) -> Option<(Seq<char>, Option<Seq<char>>)> {
    match p {
        Some(u) => Some((u.scheme@, crate::text::opt_view(u.host))),
        None => None,
    }
}

/// Scheme and host of a text that is a URL: what `url::Url::parse`, `scheme` and `host_str` give,
/// which is a function of the text.
#[verifier::external_body]
fn parse_url(text: &str) -> (r: Option<ParsedUrl>)
    ensures
        parts_view(r) == url_parts(text@),
{
    match url::Url::parse(text) {
        Ok(u) => Some(
            ParsedUrl {
                scheme: u.scheme().to_string(),
                host: u.host_str().map(|h| h.to_string()),
            },
        ),
        Err(_) => None,
    }
}

/// A host without the `www.` that may begin it.
pub open spec fn without_www(host: Seq<char>) -> Seq<char> {
    if "www."@.is_prefix_of(host) {
        host.skip("www."@.len() as int)
    } else {
        host
    }
}

/// The source that a URL names: the host of a web page without `www.`, the scheme of any other
/// URL, and the text itself if it is no URL.
pub open spec fn source_named(
    parts: Option<(Seq<char>, Option<Seq<char>>)>,
    text: Seq<char>,
) -> Seq<char> {
    match parts {
        Some((scheme, host)) => if (scheme == "http"@ || scheme == "https"@) && host is Some {
            without_www(host->0)
        } else {
            scheme
        },
        None => text,
    }
}

/// The source that a URL names, given what was read off it.
pub fn source_from_parts(parsed: Option<ParsedUrl>, source_url: &str) -> (r: String)
    ensures
        r@ == source_named(parts_view(parsed), source_url@),
{
    match parsed {
        Some(u) => {
            let web = text_eq(u.scheme.as_str(), "http") || text_eq(u.scheme.as_str(), "https");
            match u.host {
                Some(host) => {
                    if !web {
                        return u.scheme;
                    }
                    if starts_with(host.as_str(), "www.") {
                        let cs = chars_of(host.as_str());
                        let www = chars_of("www.");
                        let r = string_of_range(cs.as_slice(), www.len(), cs.len());
                        assert(r@ =~= host@.skip("www."@.len() as int));
                        r
                    } else {
                        host
                    }
                },
                None => u.scheme,
            }
        },
        None => source_url.to_owned(),
    }
}

/// The source that a URL names.
pub fn parse_source(source_url: &str) -> (r: String)
    ensures
        r@ == source_named(url_parts(source_url@), source_url@),
{
    let parsed = parse_url(source_url);
    source_from_parts(parsed, source_url)
}

/// A web page's source is its host, whether or not that begins with `www.`.
pub proof fn law_web_pages_are_named_by_their_host(
    parsed: ParsedUrl,
    rest: Seq<char>,
    source_url: &str,
    r: String,
)
    requires
        call_ensures(source_from_parts, (Some(parsed), source_url), r),
        parsed.scheme@ == "http"@ || parsed.scheme@ == "https"@,
        parsed.host is Some,
    ensures
        parsed.host->0@ == "www."@ + rest ==> r@ == rest,
        !("www."@.is_prefix_of(parsed.host->0@)) ==> r@ == parsed.host->0@,
{
    let www = "www."@;
    let host = parsed.host->0@;
    if host == www + rest {
        assert(www.is_prefix_of(host)) by {
            assert(host.subrange(0, www.len() as int) =~= www);
        }
        assert(host.skip(www.len() as int) =~= rest);
    }
}

/// Any other URL's source is its scheme, and a text that is no URL is its own source.
pub proof fn law_other_sources_are_named_by_their_scheme(
    parsed: ParsedUrl,
    source_url: &str,
    r: String,
    text: String,
)
    requires
        call_ensures(source_from_parts, (Some(parsed), source_url), r),
        call_ensures(source_from_parts, (None, source_url), text),
    ensures
        parsed.host is None || (parsed.scheme@ != "http"@ && parsed.scheme@ != "https"@) ==> r@
            == parsed.scheme@,
        text@ == source_url@,
{
}

} // verus!
