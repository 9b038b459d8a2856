//! The pre-fetch hook: before a resource is fetched, its URL is parsed and
//! checked against plain blocked-domain suffixes and blocked URL substrings.

use vstd::prelude::*;
use crate::reputation::engine::{allowed, allowed_model, blocked, blocked_model, concat2, concat3, PluginViolation, ResultModel};
use crate::reputation::url_parts::{parse_url, parsed_url, UrlParts};
use crate::text::{chars_eq, chars_of, contains_chars, contains_seq, ends_with_chars, ends_with_seq, string_views};

verus! {

/// Plugin configuration: its name, kind, hooks and named string lists.
/// The lists read by the hook are `blocked_domains` and `blocked_patterns`;
/// the first entry under a name counts.
pub struct URLReputationPluginConfig {
    pub name: String,
    pub kind: String,
    pub hooks: Vec<String>,
    pub config: Vec<(String, Vec<String>)>,
}

/// The verdict of the pre-fetch hook.
pub struct ResourcePreFetchResult {
    pub continue_processing: bool,
    pub violation: Option<PluginViolation>,
}

impl View for ResourcePreFetchResult {
    type V = ResultModel;

    open spec fn view(&self) -> ResultModel {
        ResultModel {
            continue_processing: self.continue_processing,
            violation: match self.violation {
                Some(v) => Some(v@),
                None => None,
            },
        }
    }
}

/// Why the hook could not judge a URL; each variant holds the URL.
pub enum PreFetchError {
    UnparsableUrl(String),
    NoHostname(String),
}

pub enum PreFetchErrorModel {
    UnparsableUrl(Seq<char>),
    NoHostname(Seq<char>),
}

impl View for PreFetchError {
    type V = PreFetchErrorModel;

    open spec fn view(&self) -> PreFetchErrorModel {
        match self {
            PreFetchError::UnparsableUrl(u) => PreFetchErrorModel::UnparsableUrl(u@),
            PreFetchError::NoHostname(u) => PreFetchErrorModel::NoHostname(u@),
        }
    }
}

pub open spec fn prefetch_error_message(e: PreFetchErrorModel) -> Seq<char> {
    match e {
        PreFetchErrorModel::UnparsableUrl(u) => "Could not parse url: "@ + u,
        PreFetchErrorModel::NoHostname(u) => "Could not parse url hostname "@ + u,
    }
}

impl PreFetchError {
    /// The human-readable message of the error.
    pub fn message(&self) -> (m: String)
        ensures
            m@ == prefetch_error_message(self@),
    {
        match self {
            PreFetchError::UnparsableUrl(u) => concat2("Could not parse url: ", u.as_str()),
            PreFetchError::NoHostname(u) => concat2("Could not parse url hostname ", u.as_str()),
        }
    }
}

/// A blocked domain hits a host that ends with it or equals it.
pub open spec fn domain_hit(host: Seq<char>, domain: Seq<char>) -> bool {
    ends_with_seq(host, domain) || host == domain
}

/// A blocked pattern hits a URL that contains it or equals it.
pub open spec fn pattern_hit(url: Seq<char>, pattern: Seq<char>) -> bool {
    contains_seq(url, pattern) || url == pattern
}

/// The first pattern of `patterns` that hits `url`.
pub open spec fn first_pattern_hit(url: Seq<char>, patterns: Seq<Seq<char>>) -> Option<Seq<char>>
    decreases patterns.len(),
{
    if patterns.len() == 0 {
        None
    } else if pattern_hit(url, patterns[0]) {
        Some(patterns[0])
    } else {
        first_pattern_hit(url, patterns.drop_first())
    }
}

/// What the hook makes of `url`: an error when it does not parse or has no
/// host; else a block when a blocked domain hits the host, else a block on the
/// first blocked pattern that hits the URL, else a pass.
pub open spec fn pre_fetch_spec(url: Seq<char>, domains: Seq<Seq<char>>, patterns: Seq<Seq<char>>) -> Result<ResultModel, PreFetchErrorModel> {
    match parsed_url(url) {
        None => Err(PreFetchErrorModel::UnparsableUrl(url)),
        Some((_, None)) => Err(PreFetchErrorModel::NoHostname(url)),
        Some((_, Some(host))) => Ok(
            if exists|i: int| 0 <= i < domains.len() && domain_hit(host, #[trigger] domains[i]) {
                blocked_model(
                    "Blocked domain"@,
                    "Domain "@ + host + " is blocked"@,
                    "domain"@,
                    host,
                )
            } else {
                match first_pattern_hit(url, patterns) {
                    Some(p) => blocked_model(
                        "Blocked pattern"@,
                        "URL matches blocked pattern: "@ + p,
                        "pattern"@,
                        p,
                    ),
                    None => allowed_model(),
                }
            },
        ),
    }
}

pub open spec fn pre_fetch_view(r: Result<ResourcePreFetchResult, PreFetchError>) -> Result<ResultModel, PreFetchErrorModel> {
    match r {
        Ok(v) => Ok(v@),
        Err(e) => Err(e@),
    }
}

fn as_prefetch(r: crate::reputation::engine::URLPluginResult) -> (p: ResourcePreFetchResult)
    ensures
        p@ == r@,
{
    ResourcePreFetchResult { continue_processing: r.continue_processing, violation: r.violation }
}

/// Whether some blocked domain hits `host`.
fn any_domain_hit(host: &str, domains: &Vec<String>) -> (r: bool)
    ensures
        r == exists|i: int| 0 <= i < domains.len() && domain_hit(host@, #[trigger] string_views(domains@)[i]),
{
    let h = chars_of(host);
    for i in 0..domains.len()
        invariant
            h@ == host@,
            forall|j: int| 0 <= j < i ==> !domain_hit(host@, #[trigger] string_views(domains@)[j]),
    {
        let d = chars_of(domains[i].as_str());
        assert(string_views(domains@)[i as int] == domains@[i as int]@);
        if ends_with_chars(h.as_slice(), d.as_slice()) || chars_eq(h.as_slice(), d.as_slice()) {
            return true;
        }
    }
    false
}

/// The first blocked pattern that hits `url`, by index.
fn first_hit(url: &str, patterns: &Vec<String>) -> (r: Option<usize>)
    ensures
        match r {
            Some(i) => i < patterns.len() && first_pattern_hit(url@, string_views(patterns@))
                == Some(patterns@[i as int]@),
            None => first_pattern_hit(url@, string_views(patterns@)) is None,
        },
{
    let u = chars_of(url);
    let ghost ps = string_views(patterns@);
    assert(ps.skip(0) =~= ps);
    for i in 0..patterns.len()
        invariant
            u@ == url@,
            ps == string_views(patterns@),
            first_pattern_hit(url@, ps) == first_pattern_hit(url@, ps.skip(i as int)),
    {
        let p = chars_of(patterns[i].as_str());
        assert(ps[i as int] == patterns@[i as int]@);
        assert(ps.skip(i as int)[0] == ps[i as int]);
        assert(ps.skip(i as int).drop_first() =~= ps.skip(i + 1));
        if contains_chars(u.as_slice(), p.as_slice()) || chars_eq(u.as_slice(), p.as_slice()) {
            return Some(i);
        }
    }
    assert(ps.skip(patterns.len() as int).len() == 0);
    None
}

/// Checks `url` before it is fetched: it must parse and have a host; a blocked
/// domain that the host ends with (or equals) blocks it, and otherwise the first
/// blocked pattern that the URL contains (or equals) blocks it.
pub fn resource_pre_fetch(url: &str, blocked_domains: &Vec<String>, blocked_patterns: &Vec<String>) -> (r: Result<ResourcePreFetchResult, PreFetchError>)
    ensures
        pre_fetch_view(r) == pre_fetch_spec(
            url@,
            string_views(blocked_domains@),
            string_views(blocked_patterns@),
        ),
{
    let parts = match parse_url(url) {
        Some(p) => p,
        None => {
            return Err(PreFetchError::UnparsableUrl(url.to_owned()));
        },
    };
    let UrlParts { scheme: _, host } = parts;
    let host = match host {
        Some(h) => h,
        None => {
            return Err(PreFetchError::NoHostname(url.to_owned()));
        },
    };
    if any_domain_hit(host.as_str(), blocked_domains) {
        return Ok(
            as_prefetch(
                blocked(
                    "Blocked domain",
                    concat3("Domain ", host.as_str(), " is blocked"),
                    "domain",
                    host.as_str(),
                ),
            ),
        );
    }
    match first_hit(url, blocked_patterns) {
        Some(i) => {
            let p = blocked_patterns[i].as_str();
            Ok(
                as_prefetch(
                    blocked(
                        "Blocked pattern",
                        concat2("URL matches blocked pattern: ", p),
                        "pattern",
                        p,
                    ),
                ),
            )
        },
        None => Ok(as_prefetch(allowed())),
    }
}

/// The first list stored under `key`.
pub open spec fn config_list(entries: Seq<(String, Vec<String>)>, key: Seq<char>) -> Option<Vec<String>>
    decreases entries.len(),
{
    if entries.len() == 0 {
        None
    } else if entries[0].0@ == key {
        Some(entries[0].1)
    } else {
        config_list(entries.drop_first(), key)
    }
}

/// The views of the strings of the list under `key`, empty when there is none.
pub open spec fn config_strings(entries: Seq<(String, Vec<String>)>, key: Seq<char>) -> Seq<Seq<char>> {
    match config_list(entries, key) {
        Some(v) => string_views(v@),
        None => Seq::empty(),
    }
}

impl URLReputationPluginConfig {
    /// The first list stored under `key`.
    pub fn list(&self, key: &str) -> (r: Option<&Vec<String>>)
        ensures
            match r {
                Some(v) => config_list(self.config@, key@) == Some(*v),
                None => config_list(self.config@, key@) is None,
            },
    {
        let k = chars_of(key);
        let ghost es = self.config@;
        assert(es.skip(0) =~= es);
        for i in 0..self.config.len()
            invariant
                k@ == key@,
                es == self.config@,
                config_list(es, key@) == config_list(es.skip(i as int), key@),
        {
            let name = chars_of(self.config[i].0.as_str());
            assert(es.skip(i as int)[0] == es[i as int]);
            assert(es.skip(i as int).drop_first() =~= es.skip(i + 1));
            if chars_eq(name.as_slice(), k.as_slice()) {
                return Some(&self.config[i].1);
            }
        }
        assert(es.skip(self.config.len() as int).len() == 0);
        None
    }
}

/// The URL reputation plugin in its pre-fetch form.
pub struct URLReputationPlugin {
    pub config: URLReputationPluginConfig,
}

impl URLReputationPlugin {
    pub fn new(config: URLReputationPluginConfig) -> (p: Self)
        ensures
            p.config == config,
    {
        URLReputationPlugin { config }
    }

    /// The pre-fetch hook on `url`, with the blocked domains and patterns of the
    /// plugin's configuration (an absent list is empty).
    pub fn resource_pre_fetch(&self, url: &str) -> (r: Result<ResourcePreFetchResult, PreFetchError>)
        ensures
            pre_fetch_view(r) == pre_fetch_spec(
                url@,
                config_strings(self.config.config@, "blocked_domains"@),
                config_strings(self.config.config@, "blocked_patterns"@),
            ),
    {
        let empty: Vec<String> = Vec::new();
        assert(string_views(empty@) =~= Seq::<Seq<char>>::empty());
        let domains = match self.config.list("blocked_domains") {
            Some(v) => v,
            None => &empty,
        };
        let patterns = match self.config.list("blocked_patterns") {
            Some(v) => v,
            None => &empty,
        };
        resource_pre_fetch(url, domains, patterns)
    }
}

} // verus!
