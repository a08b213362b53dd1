//! What the gateway asks of URLs.
use crate::text::pairs_view;
use vstd::prelude::*;
use vstd::utf8::encode_utf8;

verus! {

/// The scheme, the host, the port and the path of a URL, as `url::Url::parse` and the parts of a URL give
/// them; `None` where the text is no URL.
pub uninterp spec fn url_parts(text: Seq<char>) -> Option<UrlPartsV>;

/// The scheme, the host, the port and the path of a URL. A port that the scheme implies is left out.
pub struct UrlParts {
    pub scheme: String,
    pub host: Option<String>,
    pub port: Option<u16>,
    pub path: String,
}

pub struct UrlPartsV {
    pub scheme: Seq<char>,
    pub host: Option<Seq<char>>,
    pub port: Option<u16>,
    pub path: Seq<char>,
}

impl View for UrlParts {
    type V = UrlPartsV;

    open spec fn view(&self) -> UrlPartsV {
        UrlPartsV {
            scheme: self.scheme@,
            host: match self.host {
                Some(host) => Some(host@),
                None => None,
            },
            port: self.port,
            path: self.path@,
        }
    }
}

/// `url::Url::parse` reads a URL; `url::Url::scheme`, `url::Url::host_str`, `url::Url::port` and
/// `url::Url::path` are parts of it.
#[verifier::external_body]
pub(crate) fn parse_parts(text: &str) -> (parts: Option<UrlParts>)
    ensures
        match parts {
            Some(p) => url_parts(text@) == Some(p@),
            None => url_parts(text@) is None,
        },
{
    url::Url::parse(text).ok().map(|u| UrlParts {
        scheme: u.scheme().to_owned(),
        host: u.host_str().map(|h| h.to_owned()),
        port: u.port(),
        path: u.path().to_owned(),
    })
}

/// The scheme and the host of a URL; `None` where the text is no URL.
pub open spec fn url_origin(text: Seq<char>) -> Option<(Seq<char>, Option<Seq<char>>)> {
    match url_parts(text) {
        Some(parts) => Some((parts.scheme, parts.host)),
        None => None,
    }
}

/// The pairs of a form's text, as `url::form_urlencoded::parse` gives them.
pub uninterp spec fn form_pairs(text: Seq<char>) -> Seq<(Seq<char>, Seq<char>)>;

/// `url::form_urlencoded::parse` decodes the names and values of a form in their order.
#[verifier::external_body]
pub(crate) fn parse_form(text: &str) -> (pairs: Vec<(String, String)>)
    ensures
        pairs_view(pairs@) == form_pairs(text@),
{
    url::form_urlencoded::parse(text.as_bytes()).into_owned().collect()
}

/// The size of pairs: their bytes, and two for each.
pub open spec fn pairs_size(pairs: Seq<(Seq<char>, Seq<char>)>) -> nat
    decreases pairs.len(),
{
    if pairs.len() == 0 {
        0
    } else {
        pairs_size(pairs.drop_last()) + encode_utf8(pairs.last().0).len() + encode_utf8(pairs.last().1).len() + 2
    }
}

/// The longest URL that is rewritten, in bytes.
pub const MAX_URL_BYTES: usize = 268_435_456;

/// The most that pairs may come to, in bytes.
pub const MAX_PAIRS_BYTES: usize = 805_306_384;

/// The pairs of a URL's query, as `url::Url::query_pairs` gives them; `None` where the text is no URL.
pub uninterp spec fn url_pairs(text: Seq<char>) -> Option<Seq<(Seq<char>, Seq<char>)>>;

/// `url::Url::parse` reads a URL, and `url::Url::query_pairs` decodes its query. One byte of a query
/// decodes to three at most, the separators of a pair counted in.
#[verifier::external_body]
pub(crate) fn read_url_pairs(text: &str) -> (pairs: Option<Vec<(String, String)>>)
    ensures
        match pairs {
            Some(list) => url_pairs(text@) == Some(pairs_view(list@)) && pairs_size(pairs_view(list@)) <= 3
                * encode_utf8(text@).len(),
            None => url_pairs(text@) is None,
        },
{
    url::Url::parse(text).ok().map(|u| u.query_pairs().into_owned().collect())
}

/// A URL without its query, as `url::Url::set_query` leaves it; `None` where the text is no URL.
pub uninterp spec fn url_without_query(text: Seq<char>) -> Option<Seq<char>>;

/// `url::Url::parse` reads a URL, and `url::Url::set_query` clears its query. Both succeed or fail
/// with the text alone.
#[verifier::external_body]
pub(crate) fn clear_query(text: &str) -> (url: Option<String>)
    ensures
        match url {
            Some(u) => url_without_query(text@) == Some(u@),
            None => url_without_query(text@) is None,
        },
        url is Some <==> url_pairs(text@) is Some,
{
    let mut url = url::Url::parse(text).ok()?;
    url.set_query(None);
    Some(url.into())
}

/// A URL with the given pairs as its query, as `url::Url::query_pairs_mut` writes them; `None` where
/// the text is no URL.
pub uninterp spec fn url_with_pairs(text: Seq<char>, pairs: Seq<(Seq<char>, Seq<char>)>) -> Option<Seq<char>>;

/// `url::Url::parse` reads a URL, `url::Url::set_query` clears its query, and `extend_pairs` of
/// `url::Url::query_pairs_mut` appends the pairs in their order. It panics on a URL of more than four
/// gigabytes, which the bounds rule out.
#[verifier::external_body]
pub(crate) fn write_pairs(text: &str, pairs: &Vec<(String, String)>) -> (url: Option<String>)
    requires
        encode_utf8(text@).len() <= MAX_URL_BYTES,
        pairs_size(pairs_view(pairs@)) <= MAX_PAIRS_BYTES,
    ensures
        match url {
            Some(u) => url_with_pairs(text@, pairs_view(pairs@)) == Some(u@),
            None => url_with_pairs(text@, pairs_view(pairs@)) is None,
        },
        url is Some <==> url_pairs(text@) is Some,
{
    let mut url = url::Url::parse(text).ok()?;
    url.set_query(None);
    url.query_pairs_mut().extend_pairs(pairs);
    Some(url.into())
}

/// A URL with another host, as `url::Url::set_host` leaves it; `None` where the text is no URL, or one
/// that can have no host.
pub uninterp spec fn url_with_host(text: Seq<char>, host: Seq<char>) -> Option<Seq<char>>;

/// `url::Url::parse` reads a URL, and `url::Url::set_host` puts another host in its place. It panics on a
/// URL of more than four gigabytes, which the bounds rule out.
#[verifier::external_body]
pub(crate) fn set_host(text: &str, host: &str) -> (url: Option<String>)
    requires
        encode_utf8(text@).len() <= MAX_URL_BYTES,
        encode_utf8(host@).len() <= MAX_URL_BYTES,
    ensures
        match url {
            Some(u) => url_with_host(text@, host@) == Some(u@),
            None => url_with_host(text@, host@) is None,
        },
{
    let mut url = url::Url::parse(text).ok()?;
    url.set_host(Some(host)).ok()?;
    Some(url.into())
}

} // verus!
