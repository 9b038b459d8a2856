//! The parts of a parsed URL that the screening logic reads.

use vstd::prelude::*;

verus! {

/// Scheme and host of a URL that `url::Url::parse` accepted.
pub struct UrlParts {
    pub scheme: String,
    pub host: Option<String>,
}

/// What `url::Url::parse` makes of `input`: `None` when it rejects it, else the
/// parsed URL's `scheme()` and `host_str()`.
pub uninterp spec fn parsed_url(input: Seq<char>) -> Option<(Seq<char>, Option<Seq<char>>)>;

pub open spec fn opt_view(o: Option<String>) -> Option<Seq<char>> {
    match o {
        Some(s) => Some(s@),
        None => None,
    }
}

/// Parses `input` with `url::Url::parse` and keeps its scheme and host.
/// Trusted: the result is `parsed_url(input)`, part by part.
#[verifier::external_body]
pub(crate) fn parse_url(input: &str) -> (r: Option<UrlParts>)
    ensures
        match (r, parsed_url(input@)) {
            (Some(p), Some((scheme, host))) => p.scheme@ == scheme && opt_view(p.host) == host,
            (None, None) => true,
            _ => false,
        },
{
    match url::Url::parse(input) {
        Ok(u) => Some(
            UrlParts { scheme: u.scheme().to_string(), host: u.host_str().map(str::to_string) },
        ),
        Err(_) => None,
    }
}

} // verus!
