//! The parts of a URL.
use vstd::prelude::*;

use crate::text;

verus! {

/// The parts of a URL that the library reads.
pub struct UrlParts {
    pub scheme: String,
    pub host: Option<String>,
    /// The port, or the one that the scheme implies.
    pub port: Option<u16>,
    pub username: String,
    pub has_password: bool,
    pub path: String,
    pub has_query: bool,
    pub has_fragment: bool,
}

/// The parts of a URL.
pub ghost struct UrlView {
    pub scheme: Seq<char>,
    pub host: Option<Seq<char>>,
    pub port: Option<u16>,
    pub username: Seq<char>,
    pub has_password: bool,
    pub path: Seq<char>,
    pub has_query: bool,
    pub has_fragment: bool,
}

impl View for UrlParts {
    type V = UrlView;

    open spec fn view(&self) -> UrlView {
        UrlView {
            scheme: self.scheme@,
            host: text::opt(self.host),
            port: self.port,
            username: self.username@,
            has_password: self.has_password,
            path: self.path@,
            has_query: self.has_query,
            has_fragment: self.has_fragment,
        }
    }
}

/// The parts of the URL that a text writes, or what is said of one that writes none.
pub uninterp spec fn url_of(text: Seq<char>) -> Result<UrlView, Seq<char>>;

/// The parts of the URL that a text writes, where it is one.
pub open spec fn parsed(text: Seq<char>) -> Option<UrlView> {
    match url_of(text) {
        Ok(parts) => Some(parts),
        Err(_) => None,
    }
}

/// What was read of a URL.
pub open spec fn read_of(parts: Result<UrlParts, String>) -> Result<UrlView, Seq<char>> {
    match parts {
        Ok(parts) => Ok(parts@),
        Err(message) => Err(message@),
    }
}

/// `reqwest::Url::parse`: the parts of a URL, or the message of the parser for a text that is none.
#[verifier::external_body]
pub(crate) fn parse_url(text: &str) -> (r: Result<UrlParts, String>)
    ensures
        read_of(r) == url_of(text@),
{
    let url = reqwest::Url::parse(text).map_err(|error| error.to_string())?;
    Ok(UrlParts {
        scheme: url.scheme().to_owned(),
        host: url.host_str().map(|host| host.to_owned()),
        port: url.port_or_known_default(),
        username: url.username().to_owned(),
        has_password: url.password().is_some(),
        path: url.path().to_owned(),
        has_query: url.query().is_some(),
        has_fragment: url.fragment().is_some(),
    })
}

} // verus!
