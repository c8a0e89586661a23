//! URL components, read through the `url` crate.
//!
//! Parsing a URL (WHATWG rules, IDNA, percent-encoding) is left to
//! `url::Url`; the library reads the components it decides on from a plain
//! [`UrlParts`] value.
use vstd::prelude::*;

use crate::text::{chars_eq, chars_of};

verus! {

/// The components of a parsed URL that the library reads.
#[derive(Clone, Debug)]
pub struct UrlParts {
    /// `Url::scheme`.
    pub scheme: String,
    /// `Url::username` (empty when there is none).
    pub username: String,
    /// `Url::password().is_some()`.
    pub has_password: bool,
    /// `Url::query().is_some()`.
    pub has_query: bool,
    /// `Url::fragment().is_some()`.
    pub has_fragment: bool,
    /// `Url::host_str`.
    pub host: Option<String>,
    /// `Url::port`: the explicit port, when it is not the scheme's default.
    pub port: Option<u16>,
}

/// The mathematical view of [`UrlParts`].
pub struct UrlPartsView {
    pub scheme: Seq<char>,
    pub username: Seq<char>,
    pub has_password: bool,
    pub has_query: bool,
    pub has_fragment: bool,
    pub host: Option<Seq<char>>,
    pub port: Option<u16>,
}

impl View for UrlParts {
    type V = UrlPartsView;

    open spec fn view(&self) -> UrlPartsView {
        UrlPartsView {
            scheme: self.scheme@,
            username: self.username@,
            has_password: self.has_password,
            has_query: self.has_query,
            has_fragment: self.has_fragment,
            host: match self.host {
                Some(h) => Some(h@),
                None => None,
            },
            port: self.port,
        }
    }
}

// What `url::Url::parse` makes of a text: its components, or `None` when
// the text is not a URL.
pub uninterp spec fn spec_url_parse(input: Seq<char>) -> Option<UrlPartsView>;

// The text of a URL after `url::Url::set_host` has replaced its host, or
// `None` when the text is not a URL or the host is refused.
pub uninterp spec fn spec_url_with_host(input: Seq<char>, host: Seq<char>) -> Option<Seq<char>>;

/// A host as the `url` crate gives it for a special scheme: printable
/// ASCII only, and none of `/ \ ? # @`.
pub open spec fn is_special_host_text(h: Seq<char>) -> bool {
    forall|i: int|
        0 <= i < h.len() ==> {
            let c = #[trigger] h[i];
            &&& 0x20 < (c as u32) && (c as u32) < 0x7f
            &&& c != '/' && c != '\\' && c != '?' && c != '#' && c != '@'
        }
}

/// The components of a URL as `url::Url` gives them: for a special scheme
/// (one with a known default port), the host has the form above.
pub open spec fn url_parts_wf(u: UrlPartsView) -> bool {
    default_port(u.scheme) is Some && u.host is Some ==> is_special_host_text(u.host->0)
}

/// Parses a URL with `url::Url::parse` and reads its components.
///
/// The contract claims that the result is what `Url::parse` gives for this
/// text (a function of the text alone), and one fact of its host: for the
/// special schemes `http`, `https`, `ws`, `wss` and `ftp` the host is parsed
/// by `Host::parse`, which gives a domain made by `idna` under
/// `AsciiDenyList::URL` (ASCII; no space or control character, none of
/// `%#/:<>?@[\]^|`), a dotted IPv4 address or a bracketed IPv6 address.
/// What else the parse gives is not stated.
#[verifier::external_body]
pub(crate) fn parse_url(input: &str) -> (r: Option<UrlParts>)
    ensures
        match r {
            Some(parts) => spec_url_parse(input@) == Some(parts@),
            None => spec_url_parse(input@) is None,
        },
        r matches Some(parts) ==> url_parts_wf(parts@),
{
    let url = url::Url::parse(input).ok()?;
    Some(UrlParts {
        scheme: url.scheme().to_string(),
        username: url.username().to_string(),
        has_password: url.password().is_some(),
        has_query: url.query().is_some(),
        has_fragment: url.fragment().is_some(),
        host: url.host_str().map(str::to_string),
        port: url.port(),
    })
}

/// Replaces the host of a URL text with `url::Url::set_host` and gives the
/// new URL text (`Url::to_string`).
///
/// The contract claims only that the result is a function of the two texts;
/// what it is, is not stated.
#[verifier::external_body]
pub(crate) fn url_with_host(input: &str, host: &str) -> (r: Option<String>)
    ensures
        match r {
            Some(s) => spec_url_with_host(input@, host@) == Some(s@),
            None => spec_url_with_host(input@, host@) is None,
        },
{
    let mut url = url::Url::parse(input).ok()?;
    url.set_host(Some(host)).ok()?;
    Some(url.to_string())
}

/// The default port of the schemes that the `url` crate knows
/// (`url::parser::default_port`).
pub open spec fn default_port(scheme: Seq<char>) -> Option<u16> {
    if scheme == "http"@ || scheme == "ws"@ {
        Some(80)
    } else if scheme == "https"@ || scheme == "wss"@ {
        Some(443)
    } else if scheme == "ftp"@ {
        Some(21)
    } else {
        None
    }
}

/// `Url::port_or_known_default`: the explicit port, else the scheme's
/// known default.
pub open spec fn port_or_known_default(u: UrlPartsView) -> Option<u16> {
    match u.port {
        Some(p) => Some(p),
        None => default_port(u.scheme),
    }
}

/// The scheme's known default port.
pub fn default_port_exec(scheme: &str) -> (r: Option<u16>)
    ensures
        r == default_port(scheme@),
{
    let s = chars_of(scheme);
    let http = chars_of("http");
    let ws = chars_of("ws");
    let https = chars_of("https");
    let wss = chars_of("wss");
    let ftp = chars_of("ftp");
    if chars_eq(&s, &http) || chars_eq(&s, &ws) {
        Some(80)
    } else if chars_eq(&s, &https) || chars_eq(&s, &wss) {
        Some(443)
    } else if chars_eq(&s, &ftp) {
        Some(21)
    } else {
        None
    }
}

impl UrlParts {
    /// `Url::port_or_known_default`.
    pub fn port_or_known_default(&self) -> (r: Option<u16>)
        ensures
            r == port_or_known_default(self@),
    {
        match self.port {
            Some(p) => Some(p),
            None => default_port_exec(self.scheme.as_str()),
        }
    }
}

} // verus!
