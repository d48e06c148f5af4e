//! URLs, as far as the clients read them.
//!
//! Parsing and resolving are the work of the `url` crate. The clients keep
//! what they read from a parsed URL as plain text: its normal form and its
//! host.

use crate::text::optional_text;
use vstd::prelude::*;

verus! {

/// `url::ParseError`: why a text is no URL. It is carried through as it is.
#[verifier::external_type_specification]
#[verifier::external_body]
pub struct ExParseError(url::ParseError);

/// What the clients read from a parsed URL.
#[derive(Debug)]
pub struct ParsedUrl {
    /// The URL in its normal form.
    pub text: String,
    /// The host, where the URL has one.
    pub host: Option<String>,
}

/// The mathematical value of a [`ParsedUrl`].
pub ghost struct UrlModel {
    pub text: Seq<char>,
    pub host: Option<Seq<char>>,
}

impl View for ParsedUrl {
    type V = UrlModel;

    open spec fn view(&self) -> UrlModel {
        UrlModel { text: self.text@, host: optional_text(self.host) }
    }
}

/// The absolute URL that `input` denotes; `None` where it denotes none.
pub uninterp spec fn url_parse(input: Seq<char>) -> Option<UrlModel>;

/// Whether `text` is the normal form of an absolute URL.
pub open spec fn is_normal_url(text: Seq<char>) -> bool {
    exists|input: Seq<char>| (#[trigger] url_parse(input)) matches Some(url) && url.text == text
}

/// The normal form of the URL that `reference` denotes when read against
/// the base URL `base`; `None` where `base` denotes no absolute URL or
/// `reference` cannot be resolved against it.
pub uninterp spec fn url_join(base: Seq<char>, reference: Seq<char>) -> Option<Seq<char>>;

/// `url::Url::parse`, with the serialization and the host of the result
/// read out: it succeeds exactly where `input` denotes an absolute URL.
#[verifier::external_body]
pub(crate) fn parse_url(input: &str) -> (parsed: Result<ParsedUrl, url::ParseError>)
    ensures
        match parsed {
            Ok(url) => url_parse(input@) == Some(url@),
            Err(_) => url_parse(input@) is None,
        },
{
    let url = url::Url::parse(input)?;
    Ok(ParsedUrl { text: url.as_str().to_string(), host: url.host_str().map(str::to_string) })
}

/// `url::Url::join` on the parsed `base`, with the serialization of the
/// result read out: it succeeds exactly where `base` denotes an absolute
/// URL against which `reference` can be resolved.
#[verifier::external_body]
pub(crate) fn join_url(base: &str, reference: &str) -> (joined: Result<String, url::ParseError>)
    ensures
        match joined {
            Ok(text) => url_join(base@, reference@) == Some(text@),
            Err(_) => url_join(base@, reference@) is None,
        },
{
    let url = url::Url::parse(base)?.join(reference)?;
    Ok(url.as_str().to_string())
}

} // verus!
