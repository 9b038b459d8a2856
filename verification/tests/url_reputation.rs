use mcp_guard::reputation::engine::{Screening, URLPluginResult, URLReputationConfig, URLReputationPlugin};
use mcp_guard::reputation::heuristic::{byte_frequencies, entropy_applies, is_domain_unicode_secure, is_tld_legal};
use mcp_guard::reputation::ip::{is_ip_host_exec, is_ipv4_text_exec, is_ipv6_text_exec};
use mcp_guard::reputation::patterns::{domain_matches, in_blocked_list, in_blocked_patterns};
use mcp_guard::reputation::prefetch::{
    resource_pre_fetch, PreFetchError, URLReputationPlugin as PreFetchPlugin, URLReputationPluginConfig,
};

fn shannon_entropy(domain: &str) -> f32 {
    let freq = byte_frequencies(domain);
    let len = domain.len() as f32;
    let mut entropy = 0.0f32;
    for count in freq.iter() {
        if *count > 0 {
            let p = (*count as f32) / len;
            entropy += -p * p.log2();
        }
    }
    entropy
}

fn passed_entropy(domain: &str, threshold: f32) -> bool {
    !entropy_applies(domain) || shannon_entropy(domain) <= threshold
}

fn validate(plugin: &URLReputationPlugin, url: &str, threshold: f32) -> URLPluginResult {
    match plugin.screen_url(url) {
        Screening::Decided(r) => r,
        Screening::NeedsHeuristics { domain } => {
            let ok = passed_entropy(&domain, threshold);
            URLReputationPlugin::finish_heuristics(&domain, url, ok)
        }
    }
}

fn config(
    whitelist: &[&str],
    allowed: &[&str],
    blocked: &[&str],
    blocked_patterns: &[&str],
    heuristics: bool,
) -> URLReputationConfig {
    URLReputationConfig {
        whitelist_domains: whitelist.iter().map(|s| s.to_string()).collect(),
        allowed_patterns: allowed.iter().map(|s| s.to_string()).collect(),
        blocked_domains: blocked.iter().map(|s| s.to_string()).collect(),
        blocked_patterns: blocked_patterns.iter().map(|s| s.to_string()).collect(),
        use_heuristic_check: heuristics,
        block_non_secure_http: true,
    }
}

fn reason(r: URLPluginResult) -> String {
    r.violation.unwrap().reason
}

#[test]
fn test_whitelisted_domain() {
    let plugin = URLReputationPlugin::new(config(&["example.com"], &[], &[], &[], false));
    let result = validate(&plugin, "https://example.com", 0.0);
    assert!(result.continue_processing);
}

#[test]
fn test_blocked_domain() {
    let plugin = URLReputationPlugin::new(config(&[], &[], &["idontlikethisdomain.com"], &[], false));
    let result = validate(&plugin, "https://api.idontlikethisdomain.com", 0.0);
    assert!(!result.continue_processing);
    assert_eq!(result.violation.unwrap().reason, "Domain in blocked set");
}

#[test]
fn test_non_secure_http() {
    let plugin = URLReputationPlugin::new(config(&[], &[], &[], &[], true));
    let result = validate(&plugin, "http://ibm.com", 5.0);
    assert!(!result.continue_processing);
    assert_eq!(result.violation.unwrap().reason, "Blocked non secure http url");
}

#[test]
fn test_allowed_pattern() {
    let plugin = URLReputationPlugin::new(config(&[], &["0932", "safe\\.com/allowed"], &[], &[], false));
    let result = validate(&plugin, "https://safe.com/allowed", 0.0);
    assert!(result.continue_processing);
}

#[test]
fn test_blocked_pattern() {
    let plugin = URLReputationPlugin::new(config(&[], &[], &[], &["crypto.*"], false));
    let result = validate(&plugin, "https://safe.com/crypto-invest", 0.0);
    assert!(!result.continue_processing);
    assert_eq!(result.violation.unwrap().reason, "Blocked pattern");
}

#[test]
fn test_valid_url() {
    let plugin = URLReputationPlugin::new(config(&[], &[], &[], &["crypto.*"], false));
    let result = validate(&plugin, "https://rust-lang.org", 3.65);
    assert!(result.continue_processing);
}

#[test]
fn test_could_not_parse_url_invalid_character() {
    let plugin = URLReputationPlugin::new(config(&[], &[], &[], &["crypto.*"], false));
    let result = validate(&plugin, "ht!tp://example.com", 3.65);
    assert!(!result.continue_processing);
    assert!(result.violation.unwrap().reason == "Could not parse url")
}

#[test]
fn test_could_not_parse_domain_invalid_character() {
    let plugin = URLReputationPlugin::new(config(&[], &[], &[], &[], true));
    let result = validate(&plugin, "mailto:user@example.com", 5.0);
    assert!(!result.continue_processing);
    assert!(result.violation.unwrap().reason == "Could not parse domain")
}

#[test]
fn test_heuristic_high_entropy_domain() {
    let plugin = URLReputationPlugin::new(config(&[], &[], &[], &[], true));
    let result = validate(&plugin, "https://axb12c34d56ef.com", 3.65);
    assert!(!result.continue_processing);
    assert!(result.violation.unwrap().reason == "High entropy domain");
}

#[test]
fn test_heuristic_invalid_tld() {
    let plugin = URLReputationPlugin::new(config(&[], &[], &[], &[], true));
    let result = validate(&plugin, "https://test.daks/test", 5.65);
    assert!(!result.continue_processing);
    assert!(result.violation.unwrap().reason == "Illegal TLD");
}

#[test]
fn test_heuristic_domain_too_long() {
    let plugin = URLReputationPlugin::new(config(&[], &[], &[], &[], true));
    let domain_label = "long_domain".repeat(30);
    let url = format!("https://{}.com", domain_label);
    let result = validate(&plugin, &url, 5.0);
    assert!(!result.continue_processing);
    assert_eq!(result.violation.unwrap().reason, "Domain unicode is not secure");
}

#[test]
fn test_is_domain_unicode_secure_mixed_scripts() {
    let plugin = URLReputationPlugin::new(config(&[], &[], &[], &[], true));
    let result = validate(&plugin, "https://p\u{430}ypal.com/test", 5.0);
    assert!(!result.continue_processing);
    assert_eq!(result.violation.unwrap().reason, "Domain unicode is not secure");
}

#[test]
fn test_is_domain_unicode_secure_pure_ascii() {
    let plugin = URLReputationPlugin::new(config(&[], &[], &[], &[], true));
    let result = validate(&plugin, "https://domain.com", 5.0);
    assert!(result.continue_processing);
}

#[test]
fn test_is_domain_unicode_secure_empty_label() {
    let plugin = URLReputationPlugin::new(config(&[], &[], &[], &[], true));
    let result = validate(&plugin, "https://my..com", 5.0);
    assert!(!result.continue_processing);
    assert_eq!(result.violation.unwrap().reason, "Domain unicode is not secure");
}

#[test]
fn test_is_domain_unicode_invalid_characters() {
    let plugin = URLReputationPlugin::new(config(&[], &[], &[], &[], true));
    let result = validate(&plugin, "https://exa!mple.com", 5.0);
    assert!(!result.continue_processing);
    assert_eq!(result.violation.unwrap().reason, "Domain unicode is not secure");
}

#[test]
fn test_url_valid_ipv4() {
    let plugin = URLReputationPlugin::new(config(&[], &[], &[], &[], true));
    let result = validate(&plugin, "https://192.168.0.1:442", 5.0);
    assert!(result.continue_processing);
}

#[test]
fn test_url_invalid_ipv4() {
    let plugin = URLReputationPlugin::new(config(&[], &[], &[], &[], true));
    let result = validate(&plugin, "https://332.168.0.1:442", 5.0);
    assert!(!result.continue_processing);
}

#[test]
fn test_url_valid_ipv6() {
    let plugin = URLReputationPlugin::new(config(&[], &[], &[], &[], true));
    let result = validate(&plugin, "https://[2001:0db8:020c:0001:0000:0000:0000:0bbb]:442/", 5.0);
    assert!(result.continue_processing);
}

#[test]
fn test_url_invalid_ipv6() {
    let plugin = URLReputationPlugin::new(config(&[], &[], &[], &[], true));
    let result = validate(&plugin, "https://[2001:db8::85a3::8a2e:370:7334 ]:442/", 5.0);
    assert!(!result.continue_processing);
}

// ---- further scenarios ----

#[test]
fn violation_details_and_code() {
    let plugin = URLReputationPlugin::new(config(&[], &[], &["bad.org"], &[], false));
    let r = validate(&plugin, "https://x.bad.org/a", 5.0);
    let v = r.violation.unwrap();
    assert_eq!(v.code, "URL_REPUTATION_BLOCK");
    assert_eq!(v.description, "Domain 'x.bad.org' in blocked set");
    assert_eq!(v.details, vec![("domain".to_string(), "x.bad.org".to_string())]);
    let r = validate(&plugin, "http://bad.org", 5.0);
    let v = r.violation.unwrap();
    assert_eq!(v.description, "URL http://bad.org is blocked");
    assert_eq!(v.details, vec![("url".to_string(), "http://bad.org".to_string())]);
}

#[test]
fn whitelist_beats_every_other_rule() {
    let plugin = URLReputationPlugin::new(config(&["ibm.com"], &[], &["ibm.com"], &["ibm"], true));
    assert!(validate(&plugin, "http://www.ibm.com/ibm", 0.0).continue_processing);
}

#[test]
fn url_is_trimmed_and_lowercased_before_parsing() {
    let plugin = URLReputationPlugin::new(config(&[], &[], &["example.com"], &[], false));
    let r = validate(&plugin, "  HTTPS://Example.COM/x  ", 5.0);
    assert_eq!(reason(r), "Domain in blocked set");
}

#[test]
fn invalid_regex_patterns_are_dropped() {
    let plugin = URLReputationPlugin::new(config(&[], &["(unclosed", "ok"], &[], &["[bad"], false));
    assert_eq!(plugin.allowed_patterns.len(), 1);
    assert_eq!(plugin.allowed_patterns[0].as_source(), "ok");
    assert_eq!(plugin.blocked_patterns.len(), 0);
}

#[test]
fn heuristics_disabled_allows_odd_tld() {
    let plugin = URLReputationPlugin::new(config(&[], &[], &[], &[], false));
    assert!(validate(&plugin, "https://test.daks", 5.0).continue_processing);
}

#[test]
fn finish_heuristics_messages() {
    let r = URLReputationPlugin::finish_heuristics("abc.daks", "https://abc.daks", true);
    let v = r.violation.unwrap();
    assert_eq!(v.reason, "Illegal TLD");
    assert_eq!(v.description, "Domain TLD not legal: abc.daks");
    let r = URLReputationPlugin::finish_heuristics("abc.com", "u", false);
    assert_eq!(r.violation.unwrap().description, "Domain exceeds entropy threshold: abc.com");
    assert!(URLReputationPlugin::finish_heuristics("abc.com", "u", true).continue_processing);
}

#[test]
fn ipv4_grammar() {
    let t = |s: &str| is_ipv4_text_exec(&s.chars().collect::<Vec<char>>());
    assert!(t("192.168.0.1"));
    assert!(t("0.0.0.0"));
    assert!(t("255.255.255.255"));
    assert!(!t("256.1.1.1"));
    assert!(!t("01.1.1.1"));
    assert!(!t("1.1.1"));
    assert!(!t("1.1.1.1.1"));
    assert!(!t("1..1.1"));
    assert!(!t("1.1.1.1000"));
    assert!(!t("a.b.c.d"));
}

#[test]
fn ipv6_grammar() {
    let t = |s: &str| is_ipv6_text_exec(&s.chars().collect::<Vec<char>>());
    assert!(t("2001:db8:20c:1::bbb"));
    assert!(t("2001:0db8:020c:0001:0000:0000:0000:0bbb"));
    assert!(t("::"));
    assert!(t("::1"));
    assert!(t("1::"));
    assert!(t("::ffff:1.2.3.4"));
    assert!(t("1:2:3:4:5:6:1.2.3.4"));
    assert!(t("1:2:3:4:5:6:7::"));
    assert!(!t("1:2:3:4:5:6:7:8::"));
    assert!(!t("1:2:3:4:5:6::1.2.3.4"));
    assert!(!t("1::2::3"));
    assert!(!t(":::"));
    assert!(!t("1:::2"));
    assert!(!t("12345::"));
    assert!(!t("1:2:3:4:5:6:7"));
    assert!(!t("1.2.3.4::"));
    assert!(!t(""));
    assert!(!t("g::1"));
}

#[test]
fn ip_hosts() {
    assert!(is_ip_host_exec("10.0.0.1"));
    assert!(is_ip_host_exec("[::1]"));
    assert!(is_ip_host_exec("[[::1]]"));
    assert!(!is_ip_host_exec("example.com"));
    assert!(!is_ip_host_exec("[example]"));
}

#[test]
fn tld_and_label_checks() {
    assert!(is_tld_legal("example.com"));
    assert!(is_tld_legal("bbc.co.uk"));
    assert!(!is_tld_legal("example.daks"));
    assert!(!is_tld_legal("example.com."));
    assert!(is_domain_unicode_secure("my-site.example.org"));
    assert!(!is_domain_unicode_secure("-bad.com"));
    assert!(!is_domain_unicode_secure("bad-.com"));
    assert!(!is_domain_unicode_secure("xn--pypal-4ve.com"));
    assert!(!is_domain_unicode_secure(&format!("{}.com", "a".repeat(64))));
    assert!(is_domain_unicode_secure(&format!("{}.com", "a".repeat(63))));
}

#[test]
fn entropy_histogram() {
    let f = byte_frequencies("aab");
    assert_eq!(f.len(), 256);
    assert_eq!(f[b'a' as usize], 2);
    assert_eq!(f[b'b' as usize], 1);
    assert_eq!(f.iter().sum::<usize>(), 3);
    assert!(!entropy_applies("short.c"));
    assert!(entropy_applies("longer.com"));
}

#[test]
fn domain_lists() {
    assert!(domain_matches("api.example.com", "example.com"));
    assert!(domain_matches("example.com", "example.com"));
    assert!(!domain_matches("badexample.com", "example.com"));
    assert!(in_blocked_list("a.com", &["b.com", "a.com"]));
    assert!(!in_blocked_list("x.a.com", &["a.com"]));
    assert!(in_blocked_patterns("casino-royale.com", &["crypto", "casino"]));
    assert!(!in_blocked_patterns("example.com", &["crypto"]));
    assert!(in_blocked_patterns("example.com", &[""]));
}

#[test]
fn more_blocking_allows_no_more() {
    for heuristics in [false, true] {
        more_blocking_case(heuristics);
    }
}

fn more_blocking_case(heuristics: bool) {
    let lax = URLReputationPlugin::new(config(&[], &[], &["bad.com"], &["evil"], heuristics));
    let strict =
        URLReputationPlugin::new(config(&[], &[], &["bad.com", "worse.org"], &["evil", "shady", "(bad"], heuristics));
    let urls = [
        "https://good.com",
        "https://bad.com",
        "https://www.worse.org/x",
        "https://shady.net",
        "https://evil.io",
        "http://good.com",
    ];
    for url in urls {
        let a = validate(&lax, url, 4.0);
        let b = validate(&strict, url, 4.0);
        if b.continue_processing {
            assert!(a.continue_processing);
        }
        if !a.continue_processing {
            assert!(!b.continue_processing);
        }
    }
    assert!(validate(&lax, "https://shady.net", 4.0).continue_processing);
    assert!(!validate(&strict, "https://shady.net", 4.0).continue_processing);
}

#[test]
fn generic_top_level_domains_are_known() {
    for d in ["example.ninja", "my.guru", "some.bank", "about.google", "visit.london", "en.wiki", "shop.co.uk"] {
        assert!(is_tld_legal(d), "{}", d);
    }
    let plugin = URLReputationPlugin::new(config(&[], &[], &[], &[], true));
    assert!(validate(&plugin, "https://example.ninja", 5.0).continue_processing);
}

fn strings(xs: &[&str]) -> Vec<String> {
    xs.iter().map(|s| s.to_string()).collect()
}

#[test]
fn pre_fetch_blocks_domains_by_suffix() {
    let r = resource_pre_fetch("https://sub.bad.com/x", &strings(&["other.org", "bad.com"]), &strings(&["x"]))
        .ok()
        .unwrap();
    assert!(!r.continue_processing);
    let v = r.violation.unwrap();
    assert_eq!(v.reason, "Blocked domain");
    assert_eq!(v.description, "Domain sub.bad.com is blocked");
    assert_eq!(v.code, "URL_REPUTATION_BLOCK");
    assert_eq!(v.details, vec![("domain".to_string(), "sub.bad.com".to_string())]);
    // A plain suffix: no dot boundary is required.
    let r = resource_pre_fetch("https://notbad.com/", &strings(&["bad.com"]), &strings(&[])).ok().unwrap();
    assert!(!r.continue_processing);
}

#[test]
fn pre_fetch_blocks_first_matching_pattern() {
    let r = resource_pre_fetch(
        "https://good.com/track?id=1",
        &strings(&["bad.com"]),
        &strings(&["nope", "track", "id="]),
    )
    .ok()
    .unwrap();
    assert!(!r.continue_processing);
    let v = r.violation.unwrap();
    assert_eq!(v.reason, "Blocked pattern");
    assert_eq!(v.description, "URL matches blocked pattern: track");
    assert_eq!(v.details, vec![("pattern".to_string(), "track".to_string())]);
    let r = resource_pre_fetch("https://good.com/", &strings(&["bad.com"]), &strings(&["nope"])).ok().unwrap();
    assert!(r.continue_processing);
    assert!(r.violation.is_none());
}

#[test]
fn pre_fetch_errors() {
    match resource_pre_fetch("not a url", &strings(&[]), &strings(&[])) {
        Err(e @ PreFetchError::UnparsableUrl(_)) => assert_eq!(e.message(), "Could not parse url: not a url"),
        _ => panic!("expected an unparsable url"),
    }
    match resource_pre_fetch("mailto:someone@example.com", &strings(&[]), &strings(&[])) {
        Err(e @ PreFetchError::NoHostname(_)) => {
            assert_eq!(e.message(), "Could not parse url hostname mailto:someone@example.com")
        }
        _ => panic!("expected a url without host"),
    }
}

#[test]
fn pre_fetch_plugin_reads_its_lists() {
    let plugin = PreFetchPlugin::new(URLReputationPluginConfig {
        name: "url_reputation".to_string(),
        kind: "plugin".to_string(),
        hooks: strings(&["resource_pre_fetch"]),
        config: vec![
            ("blocked_domains".to_string(), strings(&["evil.com"])),
            ("blocked_patterns".to_string(), strings(&["malware"])),
        ],
    });
    let r = plugin.resource_pre_fetch("https://www.evil.com").ok().unwrap();
    assert_eq!(r.violation.unwrap().reason, "Blocked domain");
    let r = plugin.resource_pre_fetch("https://x.org/malware.exe").ok().unwrap();
    assert_eq!(r.violation.unwrap().reason, "Blocked pattern");
    let r = plugin.resource_pre_fetch("https://x.org/fine").ok().unwrap();
    assert!(r.continue_processing);
    let empty = PreFetchPlugin::new(URLReputationPluginConfig {
        name: String::new(),
        kind: String::new(),
        hooks: vec![],
        config: vec![],
    });
    assert!(empty.resource_pre_fetch("https://www.evil.com").ok().unwrap().continue_processing);
}
