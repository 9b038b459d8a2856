//! The URL screening pipeline: parse and normalise the URL, then apply the
//! whitelist, allow patterns, scheme policy, blocked domains, blocked patterns
//! and (for non-IP hosts) the domain heuristics, in that order.
//!
//! The entropy heuristic compares a floating-point Shannon entropy with a
//! floating-point threshold; that comparison is made by the caller, from the
//! byte histogram of `heuristic::byte_frequencies`, and handed to
//! `URLReputationPlugin::finish_heuristics` as a boolean.

use vstd::prelude::*;
use crate::reputation::heuristic::{is_domain_secure_spec, is_domain_unicode_secure, is_tld_legal, is_tld_legal_spec};
use crate::reputation::ip::{is_ip_host, is_ip_host_exec};
use crate::reputation::patterns::{any_domain_matches, any_regex_matches, compile_patterns, domain_matches_spec, in_allow_patterns_regex, in_blocked_patterns_regex};
use crate::reputation::regex_pattern::{regex_compiles, CompiledPattern};
use crate::reputation::url_parts::{parse_url, parsed_url, UrlParts};
use crate::text::{chars_eq, chars_of, lowercase, string_of, to_lowercase, trim_chars, trim_ws};

verus! {

/// Plugin configuration. Domain sets are held as lists; only membership
/// matters. The entropy threshold is a float and stays with the caller.
pub struct URLReputationConfig {
    pub whitelist_domains: Vec<String>,
    pub allowed_patterns: Vec<String>,
    pub blocked_domains: Vec<String>,
    pub blocked_patterns: Vec<String>,
    pub use_heuristic_check: bool,
    pub block_non_secure_http: bool,
}

/// Why a URL was refused. `details` holds one key/value pair.
pub struct PluginViolation {
    pub reason: String,
    pub description: String,
    pub code: String,
    pub details: Vec<(String, String)>,
}

pub struct ViolationModel {
    pub reason: Seq<char>,
    pub description: Seq<char>,
    pub code: Seq<char>,
    pub details: Seq<(Seq<char>, Seq<char>)>,
}

impl View for PluginViolation {
    type V = ViolationModel;

    open spec fn view(&self) -> ViolationModel {
        ViolationModel {
            reason: self.reason@,
            description: self.description@,
            code: self.code@,
            details: self.details@.map_values(|kv: (String, String)| (kv.0@, kv.1@)),
        }
    }
}

/// The verdict on one URL.
pub struct URLPluginResult {
    pub continue_processing: bool,
    pub violation: Option<PluginViolation>,
}

pub struct ResultModel {
    pub continue_processing: bool,
    pub violation: Option<ViolationModel>,
}

impl View for URLPluginResult {
    type V = ResultModel;

    open spec fn view(&self) -> ResultModel {
        ResultModel {
            continue_processing: self.continue_processing,
            violation: match self.violation {
                Some(v) => Some(v@),
                None => None,
            },
        }
    }
}

/// The outcome of screening a URL before the heuristics.
pub enum Screening {
    /// The URL is decided without the heuristics.
    Decided(URLPluginResult),
    /// The heuristics must decide; `domain` is the URL's host.
    NeedsHeuristics { domain: String },
}

pub enum ScreeningModel {
    Decided(ResultModel),
    NeedsHeuristics(Seq<char>),
}

impl View for Screening {
    type V = ScreeningModel;

    open spec fn view(&self) -> ScreeningModel {
        match self {
            Screening::Decided(r) => ScreeningModel::Decided(r@),
            Screening::NeedsHeuristics { domain } => ScreeningModel::NeedsHeuristics(domain@),
        }
    }
}

pub open spec fn block_code() -> Seq<char> {
    "URL_REPUTATION_BLOCK"@
}

pub open spec fn allowed_model() -> ResultModel {
    ResultModel { continue_processing: true, violation: None }
}

pub open spec fn blocked_model(
    reason: Seq<char>,
    description: Seq<char>,
    key: Seq<char>,
    value: Seq<char>,
) -> ResultModel {
    ResultModel {
        continue_processing: false,
        violation: Some(
            ViolationModel { reason, description, code: block_code(), details: seq![(key, value)] },
        ),
    }
}

pub open spec fn url_blocked_description(url: Seq<char>) -> Seq<char> {
    "URL "@ + url + " is blocked"@
}

/// The text the URL parser sees: the URL trimmed and lowercased.
pub open spec fn normalized_url(url: Seq<char>) -> Seq<char> {
    lowercase(trim_ws(url))
}

pub struct URLReputationPlugin {
    pub config: URLReputationConfig,
    pub allowed_patterns: Vec<CompiledPattern>,
    pub blocked_patterns: Vec<CompiledPattern>,
}

/// The sources of the patterns among `patterns` that compile, in order.
pub open spec fn compiled_sources(patterns: Seq<String>) -> Seq<Seq<char>> {
    patterns.map_values(|p: String| p@).filter(|p: Seq<char>| regex_compiles(p))
}

/// Some string of `v` has the text `s`.
pub open spec fn string_in(s: Seq<char>, v: Seq<String>) -> bool {
    exists|j: int| 0 <= j < v.len() && (#[trigger] v[j])@ == s
}

/// Some pattern of `v` was compiled from `s`.
pub open spec fn source_in(s: Seq<char>, v: Seq<CompiledPattern>) -> bool {
    exists|j: int| 0 <= j < v.len() && (#[trigger] v[j]).source() == s
}

/// Every pattern of `a` that compiles is among the compiled sources of `b`
/// when every pattern of `a` is also one of `b`.
pub proof fn lemma_compiled_sources_included(a: Seq<String>, b: Seq<String>)
    requires
        forall|i: int| 0 <= i < a.len() ==> string_in((#[trigger] a[i])@, b),
    ensures
        forall|i: int|
            0 <= i < compiled_sources(a).len() ==> compiled_sources(b).contains(
                #[trigger] compiled_sources(a)[i],
            ),
{
    let ma = a.map_values(|p: String| p@);
    let mb = b.map_values(|p: String| p@);
    let pred = |p: Seq<char>| regex_compiles(p);
    assert forall|i: int| 0 <= i < compiled_sources(a).len() implies compiled_sources(b).contains(
        #[trigger] compiled_sources(a)[i],
    ) by {
        let s = compiled_sources(a)[i];
        ma.lemma_filter_pred(pred, i);
        assert(ma.filter(pred).contains(s));
        ma.lemma_filter_contains_rev(pred, s);
        let k = choose|k: int| 0 <= k < ma.len() && ma[k] == s;
        assert(a[k]@ == s);
        let j = choose|j: int| 0 <= j < b.len() && (#[trigger] b[j])@ == a[k]@;
        assert(mb[j] == s);
        mb.lemma_filter_contains(pred, j);
    }
}

pub open spec fn sources_of(patterns: Seq<CompiledPattern>) -> Seq<Seq<char>> {
    patterns.map_values(|c: CompiledPattern| c.source())
}

impl URLReputationPlugin {
    /// Some whitelisted domain matches `domain`.
    pub open spec fn whitelisted(&self, domain: Seq<char>) -> bool {
        exists|i: int|
            0 <= i < self.config.whitelist_domains@.len() && domain_matches_spec(
                domain,
                (#[trigger] self.config.whitelist_domains@[i])@,
            )
    }

    /// Some blocked domain matches `domain`.
    pub open spec fn domain_blocked(&self, domain: Seq<char>) -> bool {
        exists|i: int|
            0 <= i < self.config.blocked_domains@.len() && domain_matches_spec(
                domain,
                (#[trigger] self.config.blocked_domains@[i])@,
            )
    }

    /// What screening makes of `url`.
    pub open spec fn screening(&self, url: Seq<char>) -> ScreeningModel {
        match parsed_url(normalized_url(url)) {
            None => ScreeningModel::Decided(
                blocked_model("Could not parse url"@, url_blocked_description(url), "url"@, url),
            ),
            Some((scheme, host)) => match host {
                None => ScreeningModel::Decided(
                    blocked_model(
                        "Could not parse domain"@,
                        url_blocked_description(url),
                        "url"@,
                        url,
                    ),
                ),
                Some(domain) => if self.whitelisted(domain) {
                    ScreeningModel::Decided(allowed_model())
                } else if any_regex_matches(url, self.allowed_patterns@) {
                    ScreeningModel::Decided(allowed_model())
                } else if self.config.block_non_secure_http && scheme != "https"@ {
                    ScreeningModel::Decided(
                        blocked_model(
                            "Blocked non secure http url"@,
                            url_blocked_description(url),
                            "url"@,
                            url,
                        ),
                    )
                } else if self.domain_blocked(domain) {
                    ScreeningModel::Decided(
                        blocked_model(
                            "Domain in blocked set"@,
                            "Domain '"@ + domain + "' in blocked set"@,
                            "domain"@,
                            domain,
                        ),
                    )
                } else if any_regex_matches(url, self.blocked_patterns@) {
                    ScreeningModel::Decided(
                        blocked_model(
                            "Blocked pattern"@,
                            "URL matches blocked pattern"@,
                            "domain"@,
                            url,
                        ),
                    )
                } else if !is_ip_host(domain) && self.config.use_heuristic_check {
                    ScreeningModel::NeedsHeuristics(domain)
                } else {
                    ScreeningModel::Decided(allowed_model())
                },
            },
        }
    }
}

/// The heuristic verdict on `domain` of `url`, given the entropy test's outcome.
pub open spec fn heuristics_verdict(domain: Seq<char>, url: Seq<char>, entropy_passed: bool) -> ResultModel {
    if !entropy_passed {
        blocked_model(
            "High entropy domain"@,
            "Domain exceeds entropy threshold: "@ + domain,
            "domain"@,
            url,
        )
    } else if !is_tld_legal_spec(domain) {
        blocked_model("Illegal TLD"@, "Domain TLD not legal: "@ + domain, "domain"@, url)
    } else if !is_domain_secure_spec(domain) {
        blocked_model(
            "Domain unicode is not secure"@,
            "Domain unicode is not secure for domain: "@ + domain,
            "domain"@,
            url,
        )
    } else {
        allowed_model()
    }
}

pub(crate) fn allowed() -> (r: URLPluginResult)
    ensures
        r@ == allowed_model(),
{
    URLPluginResult { continue_processing: true, violation: None }
}

pub(crate) fn blocked(reason: &str, description: String, key: &str, value: &str) -> (r: URLPluginResult)
    ensures
        r@ == blocked_model(reason@, description@, key@, value@),
{
    let details = vec![(key.to_owned(), value.to_owned())];
    let v = PluginViolation {
        reason: reason.to_owned(),
        description,
        code: "URL_REPUTATION_BLOCK".to_owned(),
        details,
    };
    let r = URLPluginResult { continue_processing: false, violation: Some(v) };
    assert(r@.violation.unwrap().details =~= seq![(key@, value@)]);
    r
}

pub(crate) fn concat2(a: &str, b: &str) -> (r: String)
    ensures
        r@ == a@ + b@,
{
    let mut r = a.to_owned();
    r.append(b);
    r
}

pub(crate) fn concat3(a: &str, b: &str, c: &str) -> (r: String)
    ensures
        r@ == a@ + b@ + c@,
{
    let mut r = a.to_owned();
    r.append(b);
    r.append(c);
    r
}

impl URLReputationPlugin {
    /// Builds the plugin, compiling the allowed and blocked regex patterns and
    /// dropping those that do not compile.
    pub fn new(config: URLReputationConfig) -> (p: Self)
        ensures
            p.config == config,
            sources_of(p.allowed_patterns@) == compiled_sources(config.allowed_patterns@),
            sources_of(p.blocked_patterns@) == compiled_sources(config.blocked_patterns@),
    {
        let allowed_patterns = compile_patterns(config.allowed_patterns.as_slice());
        let blocked_patterns = compile_patterns(config.blocked_patterns.as_slice());
        URLReputationPlugin { config, allowed_patterns, blocked_patterns }
    }

    /// Screens `url` up to the heuristics.
    pub fn screen_url(&self, url: &str) -> (s: Screening)
        ensures
            s@ == self.screening(url@),
    {
        let raw = chars_of(url);
        let trimmed = trim_chars(raw.as_slice());
        let trimmed_str = string_of(trimmed.as_slice());
        let normalized = to_lowercase(trimmed_str.as_str());
        assert(normalized@ == normalized_url(url@));
        let parts = match parse_url(normalized.as_str()) {
            Some(p) => p,
            None => {
                return Screening::Decided(
                    blocked("Could not parse url", concat3("URL ", url, " is blocked"), "url", url),
                );
            },
        };
        let UrlParts { scheme, host } = parts;
        let domain = match host {
            Some(d) => d,
            None => {
                return Screening::Decided(
                    blocked(
                        "Could not parse domain",
                        concat3("URL ", url, " is blocked"),
                        "url",
                        url,
                    ),
                );
            },
        };
        let ip_domain = is_ip_host_exec(domain.as_str());
        if any_domain_matches(domain.as_str(), self.config.whitelist_domains.as_slice()) {
            return Screening::Decided(allowed());
        }
        if in_allow_patterns_regex(url, self.allowed_patterns.as_slice()) {
            return Screening::Decided(allowed());
        }
        let https = chars_of("https");
        let scheme_chars = chars_of(scheme.as_str());
        if self.config.block_non_secure_http && !chars_eq(scheme_chars.as_slice(), https.as_slice()) {
            return Screening::Decided(
                blocked(
                    "Blocked non secure http url",
                    concat3("URL ", url, " is blocked"),
                    "url",
                    url,
                ),
            );
        }
        if any_domain_matches(domain.as_str(), self.config.blocked_domains.as_slice()) {
            return Screening::Decided(
                blocked(
                    "Domain in blocked set",
                    concat3("Domain '", domain.as_str(), "' in blocked set"),
                    "domain",
                    domain.as_str(),
                ),
            );
        }
        if in_blocked_patterns_regex(url, self.blocked_patterns.as_slice()) {
            return Screening::Decided(
                blocked(
                    "Blocked pattern",
                    "URL matches blocked pattern".to_owned(),
                    "domain",
                    url,
                ),
            );
        }
        if !ip_domain && self.config.use_heuristic_check {
            return Screening::NeedsHeuristics { domain };
        }
        Screening::Decided(allowed())
    }

    /// The heuristic checks on `domain` (the host of `url`), in order: the
    /// entropy test (decided by the caller), the TLD check and the label check.
    pub fn finish_heuristics(domain: &str, url: &str, entropy_passed: bool) -> (r: URLPluginResult)
        ensures
            r@ == heuristics_verdict(domain@, url@, entropy_passed),
    {
        if !entropy_passed {
            return blocked(
                "High entropy domain",
                concat2("Domain exceeds entropy threshold: ", domain),
                "domain",
                url,
            );
        }
        if !is_tld_legal(domain) {
            return blocked("Illegal TLD", concat2("Domain TLD not legal: ", domain), "domain", url);
        }
        if !is_domain_unicode_secure(domain) {
            return blocked(
                "Domain unicode is not secure",
                concat2("Domain unicode is not secure for domain: ", domain),
                "domain",
                url,
            );
        }
        allowed()
    }
}

} // verus!
