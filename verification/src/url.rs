use vstd::prelude::*;

use crate::errors::{Error, ErrorView};
use crate::text::push_str;

verus! {

/// The parts of a parsed URL that the `Url` type of the language shows.
#[derive(Debug)]
pub struct UrlParts {
    /// The whole URL, as the parser serialized it.
    pub text: String,
    pub scheme: String,
    pub host: Option<String>,
    pub port: Option<u16>,
    pub path: String,
    pub query: Option<String>,
}

/// The mathematical value of [`UrlParts`].
pub struct UrlPartsView {
    pub text: Seq<char>,
    pub scheme: Seq<char>,
    pub host: Option<Seq<char>>,
    pub port: Option<u16>,
    pub path: Seq<char>,
    pub query: Option<Seq<char>>,
}

pub open spec fn option_text(o: Option<String>) -> Option<Seq<char>> {
    match o {
        Some(s) => Some(s@),
        None => None,
    }
}

impl View for UrlParts {
    type V = UrlPartsView;

    open spec fn view(&self) -> UrlPartsView {
        UrlPartsView {
            text: self.text@,
            scheme: self.scheme@,
            host: option_text(self.host),
            port: self.port,
            path: self.path@,
            query: option_text(self.query),
        }
    }
}

/// What the `url` crate makes of a text: the parts of the URL, or the message of its error.
pub uninterp spec fn url_parse_result(text: Seq<char>) -> Result<UrlPartsView, Seq<char>>;

/// `url::Url::parse`, its result read with `as_str`, `scheme`, `host_str`, `port`, `path` and
/// `query`, and its error shown with `Display`. The contract names this outcome, a function of
/// the text alone, and says nothing of what the URL standard makes of a given text.
#[verifier::external_body]
fn parse_with_url_crate(text: &str) -> (r: Result<UrlParts, String>)
    ensures
        match url_parse_result(text@) {
            Ok(v) => r matches Ok(p) && p@ == v,
            Err(m) => r matches Err(e) && e@ == m,
        },
{
    match url::Url::parse(text) {
        Ok(u) => Ok(UrlParts {
            text: u.as_str().to_string(),
            scheme: u.scheme().to_string(),
            host: u.host_str().map(str::to_string),
            port: u.port(),
            path: u.path().to_string(),
            query: u.query().map(str::to_string),
        }),
        Err(e) => Err(e.to_string()),
    }
}

/// The message of a text that is no URL.
pub open spec fn invalid_url_message(m: Seq<char>) -> Seq<char> {
    "Invalid URL: "@ + m
}

/// What `Url.parse` answers for the outcome of the parser: the URL, or a value error.
pub fn url_parsed(outcome: Result<UrlParts, String>) -> (r: Result<UrlParts, Error>)
    ensures
        match outcome {
            Ok(p) => r == Ok::<UrlParts, Error>(p),
            Err(m) => r matches Err(e) && e@ == ErrorView::ValueError(invalid_url_message(m@)),
        },
{
    match outcome {
        Ok(p) => Ok(p),
        Err(m) => {
            let mut message = String::new();
            push_str(&mut message, "Invalid URL: ");
            push_str(&mut message, m.as_str());
            Err(Error::ValueError(message))
        },
    }
}

/// Parses a URL.
pub fn url_parse(text: &str) -> (r: Result<UrlParts, Error>)
    ensures
        match url_parse_result(text@) {
            Ok(v) => r matches Ok(p) && p@ == v,
            Err(m) => r matches Err(e) && e@ == ErrorView::ValueError(invalid_url_message(m)),
        },
{
    url_parsed(parse_with_url_crate(text))
}

impl UrlParts {
    /// The scheme.
    pub fn scheme(&self) -> (s: String)
        ensures
            s@ == self@.scheme,
    {
        self.scheme.clone()
    }

    /// The host; empty where the URL has none.
    pub fn host(&self) -> (s: String)
        ensures
            s@ == match self@.host {
                Some(h) => h,
                None => Seq::empty(),
            },
    {
        match &self.host {
            Some(h) => h.clone(),
            None => String::new(),
        }
    }

    /// The port, where the URL names one.
    pub fn port(&self) -> (p: Option<u16>)
        ensures
            p == self@.port,
    {
        self.port
    }

    /// The path.
    pub fn path(&self) -> (s: String)
        ensures
            s@ == self@.path,
    {
        self.path.clone()
    }

    /// The query; empty where the URL has none.
    pub fn query(&self) -> (s: String)
        ensures
            s@ == match self@.query {
                Some(q) => q,
                None => Seq::empty(),
            },
    {
        match &self.query {
            Some(q) => q.clone(),
            None => String::new(),
        }
    }

    /// The whole URL, as the language shows it.
    pub fn repr(&self) -> (s: String)
        ensures
            s@ == self@.text,
    {
        self.text.clone()
    }
}

} // verus!
