//! Properties of the screening pipeline as a whole.

use vstd::prelude::*;
use crate::reputation::engine::{allowed_model, block_code, blocked_model, compiled_sources, heuristics_verdict, source_in, string_in, lemma_compiled_sources_included, normalized_url, sources_of, ResultModel, url_blocked_description, ScreeningModel, URLReputationPlugin};
use crate::reputation::heuristic::{is_domain_secure_spec, is_tld_legal_spec, last_label, KNOWN_TLDS};
use crate::reputation::ip::{decimal_value, is_ascii_digit, is_ip_host, is_ipv4_octet, is_ipv4_text};
use crate::reputation::patterns::{any_regex_matches, domain_matches_spec};
use crate::reputation::regex_pattern::regex_matches;
use crate::reputation::url_parts::parsed_url;
use crate::text::{ends_with_seq, lacks, lemma_split_on_concat, lemma_split_on_nonempty, lemma_split_on_pieces_lack_sep, lemma_split_on_single, split_on};

verus! {

/// Every verdict lets the URL through exactly when it carries no violation, and
/// every violation carries the block code.
pub proof fn law_verdict_shape(p: URLReputationPlugin, url: Seq<char>, domain: Seq<char>, entropy_passed: bool)
    ensures
        p.screening(url) matches ScreeningModel::Decided(r) ==> {
            &&& r.continue_processing <==> r.violation is None
            &&& r.violation matches Some(v) ==> v.code == block_code()
        },
        ({
            let r = heuristics_verdict(domain, url, entropy_passed);
            &&& r.continue_processing <==> r.violation is None
            &&& r.violation matches Some(v) ==> v.code == block_code()
        }),
{
}

/// A URL whose host is whitelisted is let through, whatever else holds of it.
pub proof fn law_whitelisted_host_allowed(p: URLReputationPlugin, url: Seq<char>, scheme: Seq<char>, domain: Seq<char>)
    requires
        parsed_url(normalized_url(url)) == Some((scheme, Some(domain))),
        p.whitelisted(domain),
    ensures
        p.screening(url) == ScreeningModel::Decided(allowed_model()),
{
}

/// A URL that an allow pattern matches is let through unless the URL cannot be
/// parsed or has no host.
pub proof fn law_allow_pattern_allows(p: URLReputationPlugin, url: Seq<char>, scheme: Seq<char>, domain: Seq<char>)
    requires
        parsed_url(normalized_url(url)) == Some((scheme, Some(domain))),
        any_regex_matches(url, p.allowed_patterns@),
    ensures
        p.screening(url) == ScreeningModel::Decided(allowed_model()),
{
}

/// A URL that does not parse is refused as unparsable.
pub proof fn law_unparsable_refused(p: URLReputationPlugin, url: Seq<char>)
    requires
        parsed_url(normalized_url(url)) is None,
    ensures
        p.screening(url) == ScreeningModel::Decided(
            blocked_model("Could not parse url"@, url_blocked_description(url), "url"@, url),
        ),
{
}

/// With the scheme policy on, a URL that is not https is refused unless it is
/// whitelisted or matched by an allow pattern.
pub proof fn law_non_https_refused(p: URLReputationPlugin, url: Seq<char>, scheme: Seq<char>, domain: Seq<char>)
    requires
        parsed_url(normalized_url(url)) == Some((scheme, Some(domain))),
        !p.whitelisted(domain),
        !any_regex_matches(url, p.allowed_patterns@),
        p.config.block_non_secure_http,
        scheme != "https"@,
    ensures
        p.screening(url) matches ScreeningModel::Decided(r) && !r.continue_processing
            && r.violation.unwrap().reason == "Blocked non secure http url"@,
{
}

/// A host in the blocked set, or below one, is refused when nothing earlier lets
/// it through or refuses it.
pub proof fn law_blocked_domain_refused(p: URLReputationPlugin, url: Seq<char>, scheme: Seq<char>, domain: Seq<char>)
    requires
        parsed_url(normalized_url(url)) == Some((scheme, Some(domain))),
        !p.whitelisted(domain),
        !any_regex_matches(url, p.allowed_patterns@),
        !p.config.block_non_secure_http || scheme == "https"@,
        p.domain_blocked(domain),
    ensures
        p.screening(url) matches ScreeningModel::Decided(r) && !r.continue_processing
            && r.violation.unwrap().reason == "Domain in blocked set"@,
{
}

/// A URL that a blocked pattern matches is refused when nothing earlier lets it
/// through or refuses it.
pub proof fn law_blocked_pattern_refused(p: URLReputationPlugin, url: Seq<char>, scheme: Seq<char>, domain: Seq<char>)
    requires
        parsed_url(normalized_url(url)) == Some((scheme, Some(domain))),
        !p.whitelisted(domain),
        !any_regex_matches(url, p.allowed_patterns@),
        !p.config.block_non_secure_http || scheme == "https"@,
        !p.domain_blocked(domain),
        any_regex_matches(url, p.blocked_patterns@),
    ensures
        p.screening(url) matches ScreeningModel::Decided(r) && !r.continue_processing
            && r.violation.unwrap().reason == "Blocked pattern"@,
{
}

/// The heuristics are consulted only when they are switched on, and never for
/// an IP-address host.
pub proof fn law_heuristics_only_for_named_hosts(p: URLReputationPlugin, url: Seq<char>)
    ensures
        p.screening(url) matches ScreeningModel::NeedsHeuristics(d) ==> {
            &&& p.config.use_heuristic_check
            &&& !is_ip_host(d)
            &&& parsed_url(normalized_url(url)) matches Some((_, Some(h))) && h == d
        },
{
}

/// The heuristics let a domain through exactly when it passes the entropy test,
/// has a known top-level domain and has well-formed ASCII labels.
pub proof fn law_heuristics_allow_iff(domain: Seq<char>, url: Seq<char>, entropy_passed: bool)
    ensures
        heuristics_verdict(domain, url, entropy_passed).continue_processing <==> (entropy_passed
            && is_tld_legal_spec(domain) && is_domain_secure_spec(domain)),
{
}

/// Blocking more never lets more through: when two plugins agree on the
/// whitelist, the allow patterns and the switches, and every blocked domain and
/// blocked pattern of the first is also one of the second, then every URL that
/// the second lets through, or hands on to the heuristics, the first treats the
/// same way.
pub proof fn law_more_blocking_allows_no_more(p1: URLReputationPlugin, p2: URLReputationPlugin, url: Seq<char>)
    requires
        p1.config.whitelist_domains@ == p2.config.whitelist_domains@,
        sources_of(p1.allowed_patterns@) == sources_of(p2.allowed_patterns@),
        p1.config.block_non_secure_http == p2.config.block_non_secure_http,
        p1.config.use_heuristic_check == p2.config.use_heuristic_check,
        forall|i: int|
            0 <= i < p1.config.blocked_domains@.len() ==> string_in(
                (#[trigger] p1.config.blocked_domains@[i])@,
                p2.config.blocked_domains@,
            ),
        forall|i: int|
            0 <= i < p1.blocked_patterns@.len() ==> source_in(
                (#[trigger] p1.blocked_patterns@[i]).source(),
                p2.blocked_patterns@,
            ),
    ensures
        p2.screening(url) matches ScreeningModel::Decided(r) && r.continue_processing
            ==> p1.screening(url) == p2.screening(url),
        p2.screening(url) is NeedsHeuristics ==> p1.screening(url) == p2.screening(url),
{
    assert(sources_of(p1.allowed_patterns@).len() == p1.allowed_patterns@.len());
    assert(sources_of(p2.allowed_patterns@).len() == p2.allowed_patterns@.len());
    if any_regex_matches(url, p1.allowed_patterns@) {
        let i = choose|i: int|
            0 <= i < p1.allowed_patterns@.len() && regex_matches(
                (#[trigger] p1.allowed_patterns@[i]).source(),
                url,
            );
        assert(sources_of(p1.allowed_patterns@)[i] == sources_of(p2.allowed_patterns@)[i]);
        assert(regex_matches(p2.allowed_patterns@[i].source(), url));
    }
    if any_regex_matches(url, p2.allowed_patterns@) {
        let i = choose|i: int|
            0 <= i < p2.allowed_patterns@.len() && regex_matches(
                (#[trigger] p2.allowed_patterns@[i]).source(),
                url,
            );
        assert(sources_of(p1.allowed_patterns@)[i] == sources_of(p2.allowed_patterns@)[i]);
        assert(regex_matches(p1.allowed_patterns@[i].source(), url));
    }
    if any_regex_matches(url, p1.blocked_patterns@) {
        let i = choose|i: int|
            0 <= i < p1.blocked_patterns@.len() && regex_matches(
                (#[trigger] p1.blocked_patterns@[i]).source(),
                url,
            );
        let j = choose|j: int|
            0 <= j < p2.blocked_patterns@.len() && (#[trigger] p2.blocked_patterns@[j]).source()
                == p1.blocked_patterns@[i].source();
        assert(regex_matches(p2.blocked_patterns@[j].source(), url));
    }
    assert forall|d: Seq<char>| p1.domain_blocked(d) implies p2.domain_blocked(d) by {
        let i = choose|i: int|
            0 <= i < p1.config.blocked_domains@.len() && domain_matches_spec(
                d,
                (#[trigger] p1.config.blocked_domains@[i])@,
            );
        let j = choose|j: int|
            0 <= j < p2.config.blocked_domains@.len() && (#[trigger] p2.config.blocked_domains@[j])@
                == p1.config.blocked_domains@[i]@;
        assert(domain_matches_spec(d, p2.config.blocked_domains@[j]@));
    }
    assert forall|d: Seq<char>| p1.whitelisted(d) == p2.whitelisted(d) by {
        if p1.whitelisted(d) {
            let i = choose|i: int|
                0 <= i < p1.config.whitelist_domains@.len() && domain_matches_spec(
                    d,
                    (#[trigger] p1.config.whitelist_domains@[i])@,
                );
            assert(domain_matches_spec(d, p2.config.whitelist_domains@[i]@));
        }
        if p2.whitelisted(d) {
            let i = choose|i: int|
                0 <= i < p2.config.whitelist_domains@.len() && domain_matches_spec(
                    d,
                    (#[trigger] p2.config.whitelist_domains@[i])@,
                );
            assert(domain_matches_spec(d, p1.config.whitelist_domains@[i]@));
        }
    }
}

/// The whole verdict on `url`: the screening's decision, or the heuristics'
/// verdict on the host when screening hands it on (`entropy_passed` is the
/// outcome of the entropy test on that host).
pub open spec fn full_verdict(p: URLReputationPlugin, url: Seq<char>, entropy_passed: bool) -> ResultModel {
    match p.screening(url) {
        ScreeningModel::Decided(r) => r,
        ScreeningModel::NeedsHeuristics(d) => heuristics_verdict(d, url, entropy_passed),
    }
}

/// Adding blocked domains or blocked patterns to a configuration never
/// unblocks a URL: for two plugins built from configurations that are equal
/// but for the blocked lists, where every blocked domain and blocked pattern of
/// the first is also one of the second, every URL that the second lets through
/// the first lets through too.
pub proof fn law_more_blocked_config_allows_no_more(
    p1: URLReputationPlugin,
    p2: URLReputationPlugin,
    url: Seq<char>,
    entropy_passed: bool,
)
    requires
        sources_of(p1.allowed_patterns@) == compiled_sources(p1.config.allowed_patterns@),
        sources_of(p1.blocked_patterns@) == compiled_sources(p1.config.blocked_patterns@),
        sources_of(p2.allowed_patterns@) == compiled_sources(p2.config.allowed_patterns@),
        sources_of(p2.blocked_patterns@) == compiled_sources(p2.config.blocked_patterns@),
        p1.config.whitelist_domains@ == p2.config.whitelist_domains@,
        p1.config.allowed_patterns@ == p2.config.allowed_patterns@,
        p1.config.block_non_secure_http == p2.config.block_non_secure_http,
        p1.config.use_heuristic_check == p2.config.use_heuristic_check,
        forall|i: int|
            0 <= i < p1.config.blocked_domains@.len() ==> string_in(
                (#[trigger] p1.config.blocked_domains@[i])@,
                p2.config.blocked_domains@,
            ),
        forall|i: int|
            0 <= i < p1.config.blocked_patterns@.len() ==> string_in(
                (#[trigger] p1.config.blocked_patterns@[i])@,
                p2.config.blocked_patterns@,
            ),
    ensures
        full_verdict(p2, url, entropy_passed).continue_processing ==> full_verdict(
            p1,
            url,
            entropy_passed,
        ).continue_processing,
{
    lemma_compiled_sources_included(p1.config.blocked_patterns@, p2.config.blocked_patterns@);
    assert forall|i: int| 0 <= i < p1.blocked_patterns@.len() implies source_in(
        (#[trigger] p1.blocked_patterns@[i]).source(),
        p2.blocked_patterns@,
    ) by {
        let s1 = sources_of(p1.blocked_patterns@);
        let s2 = sources_of(p2.blocked_patterns@);
        assert(s1.len() == p1.blocked_patterns@.len());
        assert(s1[i] == p1.blocked_patterns@[i].source());
        assert(s2.contains(s1[i]));
        let j = choose|j: int| 0 <= j < s2.len() && s2[j] == s1[i];
        assert(s2[j] == p2.blocked_patterns@[j].source());
    }
    law_more_blocking_allows_no_more(p1, p2, url);
    if full_verdict(p2, url, entropy_passed).continue_processing {
        match p2.screening(url) {
            ScreeningModel::Decided(r) => {},
            ScreeningModel::NeedsHeuristics(d) => {},
        }
    }
}

/// The decimal digit for `d`.
pub open spec fn decimal_digit(d: nat) -> char {
    (('0' as nat) + d) as char
}

/// The decimal numeral of `n`, without leading zeros.
pub open spec fn decimal(n: nat) -> Seq<char>
    decreases n,
{
    if n < 10 {
        seq![decimal_digit(n)]
    } else {
        decimal(n / 10).push(decimal_digit(n % 10))
    }
}

/// The dotted-quad text of four numbers.
pub open spec fn dotted_quad(a: nat, b: nat, c: nat, d: nat) -> Seq<char> {
    decimal(a) + seq!['.'] + decimal(b) + seq!['.'] + decimal(c) + seq!['.'] + decimal(d)
}

proof fn lemma_decimal_digit(d: nat)
    requires
        d < 10,
    ensures
        (decimal_digit(d) as nat) == ('0' as nat) + d,
        is_ascii_digit(decimal_digit(d)),
{
    assert(('0' as nat) == 48);
    assert(((48 + d) as char) as nat == 48 + d) by {
        if d == 0 { assert((48nat as char) == '0'); }
        else if d == 1 { assert((49nat as char) == '1'); }
        else if d == 2 { assert((50nat as char) == '2'); }
        else if d == 3 { assert((51nat as char) == '3'); }
        else if d == 4 { assert((52nat as char) == '4'); }
        else if d == 5 { assert((53nat as char) == '5'); }
        else if d == 6 { assert((54nat as char) == '6'); }
        else if d == 7 { assert((55nat as char) == '7'); }
        else if d == 8 { assert((56nat as char) == '8'); }
        else { assert((57nat as char) == '9'); }
    }
}

proof fn lemma_decimal(n: nat)
    ensures
        decimal_value(decimal(n)) == n,
        forall|i: int| 0 <= i < decimal(n).len() ==> #[trigger] is_ascii_digit(decimal(n)[i]),
        decimal(n).len() >= 1,
        n < 10 ==> decimal(n).len() == 1,
        n < 100 ==> decimal(n).len() <= 2,
        n < 1000 ==> decimal(n).len() <= 3,
        decimal(n).len() > 1 ==> decimal(n)[0] != '0',
        lacks(decimal(n), '.'),
    decreases n,
{
    lemma_decimal_digit(n % 10);
    if n < 10 {
        let s = seq![decimal_digit(n)];
        assert(n % 10 == n);
        assert(s.drop_last() =~= Seq::<char>::empty());
        assert(decimal_value(Seq::<char>::empty()) == 0);
        assert(s.last() == decimal_digit(n));
        assert(decimal_value(s) == n);
    } else {
        lemma_decimal(n / 10);
        let init = decimal(n / 10);
        let s = init.push(decimal_digit(n % 10));
        assert(s.drop_last() =~= init);
        assert(s.last() == decimal_digit(n % 10));
        assert(decimal_value(s) == (n / 10) * 10 + n % 10);
        assert forall|i: int| 0 <= i < s.len() implies #[trigger] is_ascii_digit(s[i]) by {
            if i < init.len() {
                assert(s[i] == init[i]);
            }
        }
        assert(s[0] == init[0]);
        if init.len() == 1 {
            assert(n / 10 < 10) by {
                if n / 10 >= 10 {
                    lemma_decimal(n / 10 / 10);
                    assert(decimal(n / 10) == decimal(n / 10 / 10).push(decimal_digit(n / 10 % 10)));
                }
            }
            lemma_decimal_digit(n / 10);
        }
    }
}

/// Every number from 0 to 255, written in decimal, is an octet.
pub proof fn law_octets_up_to_255(n: nat)
    requires
        n <= 255,
    ensures
        is_ipv4_octet(decimal(n)),
{
    lemma_decimal(n);
}

proof fn lemma_value_at_least_first(t: Seq<char>)
    requires
        t.len() >= 1,
        forall|i: int| 0 <= i < t.len() ==> #[trigger] is_ascii_digit(t[i]),
    ensures
        decimal_value(t) >= (t[0] as nat) - ('0' as nat),
    decreases t.len(),
{
    if t.len() > 1 {
        let u = t.drop_last();
        assert forall|i: int| 0 <= i < u.len() implies #[trigger] is_ascii_digit(u[i]) by {
            assert(u[i] == t[i]);
        }
        lemma_value_at_least_first(u);
        assert(u[0] == t[0]);
        assert(is_ascii_digit(t[t.len() - 1]));
    } else {
        assert(t.drop_last().len() == 0);
        assert(t.last() == t[0]);
        assert(is_ascii_digit(t[0]));
    }
}

/// A text of decimal digits without a leading zero is the decimal numeral of
/// its value.
proof fn lemma_digits_are_decimal(s: Seq<char>)
    requires
        s.len() >= 1,
        forall|i: int| 0 <= i < s.len() ==> #[trigger] is_ascii_digit(s[i]),
        s.len() > 1 ==> s[0] != '0',
    ensures
        s == decimal(decimal_value(s)),
    decreases s.len(),
{
    let c = s.last();
    assert(is_ascii_digit(s[s.len() - 1]));
    let d = ((c as nat) - ('0' as nat)) as nat;
    assert(d < 10);
    lemma_decimal_digit(d);
    assert(decimal_digit(d) == c);
    if s.len() == 1 {
        assert(s.drop_last() =~= Seq::<char>::empty());
        assert(decimal_value(Seq::<char>::empty()) == 0);
        assert(decimal_value(s) == d);
        assert(s =~= seq![c]);
    } else {
        let t = s.drop_last();
        assert forall|i: int| 0 <= i < t.len() implies #[trigger] is_ascii_digit(t[i]) by {
            assert(t[i] == s[i]);
        }
        assert(t[0] == s[0]);
        lemma_digits_are_decimal(t);
        lemma_value_at_least_first(t);
        assert(is_ascii_digit(s[0]));
        let v = decimal_value(s);
        assert(v == decimal_value(t) * 10 + d);
        assert(decimal_value(t) >= 1);
        assert(v / 10 == decimal_value(t) && v % 10 == d);
        assert(s =~= t.push(c));
    }
}

/// Conversely, every octet is the decimal numeral of a number from 0 to 255.
pub proof fn law_octets_are_decimals_up_to_255(s: Seq<char>)
    requires
        is_ipv4_octet(s),
    ensures
        decimal_value(s) <= 255,
        s == decimal(decimal_value(s)),
{
    lemma_digits_are_decimal(s);
}

/// Every dotted quad of four numbers from 0 to 255 (written in decimal,
/// without leading zeros) is an IP host, so the heuristics never judge it.
pub proof fn law_dotted_quads_are_ip_hosts(a: nat, b: nat, c: nat, d: nat)
    requires
        a <= 255,
        b <= 255,
        c <= 255,
        d <= 255,
    ensures
        is_ip_host(dotted_quad(a, b, c, d)),
{
    lemma_decimal(a);
    lemma_decimal(b);
    lemma_decimal(c);
    lemma_decimal(d);
    let (sa, sb, sc, sd) = (decimal(a), decimal(b), decimal(c), decimal(d));
    lemma_split_on_single(sa, '.');
    lemma_split_on_single(sb, '.');
    lemma_split_on_single(sc, '.');
    lemma_split_on_single(sd, '.');
    let ab = sa + seq!['.'] + sb;
    let abc = ab + seq!['.'] + sc;
    lemma_split_on_concat(sa, sb, '.');
    lemma_split_on_concat(ab, sc, '.');
    lemma_split_on_concat(abc, sd, '.');
    let parts = split_on(dotted_quad(a, b, c, d), '.');
    assert(parts =~= seq![sa, sb, sc, sd]);
    law_octets_up_to_255(a);
    law_octets_up_to_255(b);
    law_octets_up_to_255(c);
    law_octets_up_to_255(d);
    assert(is_ipv4_octet(parts[0]) && is_ipv4_octet(parts[1]) && is_ipv4_octet(parts[2])
        && is_ipv4_octet(parts[3]));
    assert(is_ipv4_text(dotted_quad(a, b, c, d)));
}

/// The pieces of a split text joined again with the separator.
pub open spec fn join_with(parts: Seq<Seq<char>>, sep: char) -> Seq<char>
    decreases parts.len(),
{
    if parts.len() <= 1 {
        if parts.len() == 1 {
            parts[0]
        } else {
            Seq::empty()
        }
    } else {
        join_with(parts.drop_last(), sep) + seq![sep] + parts.last()
    }
}

proof fn lemma_join_split(s: Seq<char>, sep: char)
    ensures
        join_with(split_on(s, sep), sep) == s,
    decreases s.len(),
{
    if s.len() > 0 {
        let t = s.drop_last();
        lemma_join_split(t, sep);
        lemma_split_on_nonempty(t, sep);
        let init = split_on(t, sep);
        let parts = split_on(s, sep);
        if s.last() == sep {
            assert(parts.drop_last() =~= init);
            assert(s =~= t + seq![sep] + Seq::<char>::empty());
        } else {
            assert(parts.len() == init.len());
            if init.len() == 1 {
                assert(parts[0] == init[0].push(s.last()));
                assert(s =~= t.push(s.last()));
            } else {
                assert(parts.drop_last() =~= init.drop_last());
                assert(parts.last() == init.last().push(s.last()));
                assert(t == join_with(init.drop_last(), sep) + seq![sep] + init.last());
                assert(s =~= t.push(s.last()));
                assert(s =~= join_with(init.drop_last(), sep) + seq![sep] + init.last().push(s.last()));
            }
        }
    } else {
        assert(split_on(s, sep) =~= seq![Seq::<char>::empty()]);
    }
}

/// Conversely, every IPv4 text is the dotted quad of four numbers from 0 to 255.
pub proof fn law_ipv4_texts_are_dotted_quads(s: Seq<char>)
    requires
        is_ipv4_text(s),
    ensures
        exists|a: nat, b: nat, c: nat, d: nat|
            a <= 255 && b <= 255 && c <= 255 && d <= 255 && s == #[trigger] dotted_quad(a, b, c, d),
{
    let parts = split_on(s, '.');
    lemma_join_split(s, '.');
    assert(is_ipv4_octet(parts[0]) && is_ipv4_octet(parts[1]) && is_ipv4_octet(parts[2])
        && is_ipv4_octet(parts[3]));
    law_octets_are_decimals_up_to_255(parts[0]);
    law_octets_are_decimals_up_to_255(parts[1]);
    law_octets_are_decimals_up_to_255(parts[2]);
    law_octets_are_decimals_up_to_255(parts[3]);
    let (a, b, c, d) = (
        decimal_value(parts[0]),
        decimal_value(parts[1]),
        decimal_value(parts[2]),
        decimal_value(parts[3]),
    );
    let p1 = parts.drop_last().drop_last().drop_last();
    let p2 = parts.drop_last().drop_last();
    let p3 = parts.drop_last();
    assert(p1 =~= seq![parts[0]]);
    assert(join_with(p1, '.') == parts[0]);
    assert(p2.drop_last() == p1 && p2.last() == parts[1]);
    assert(join_with(p2, '.') == parts[0] + seq!['.'] + parts[1]);
    assert(p3.drop_last() == p2 && p3.last() == parts[2]);
    assert(join_with(p3, '.') == parts[0] + seq!['.'] + parts[1] + seq!['.'] + parts[2]);
    assert(parts.drop_last() == p3 && parts.last() == parts[3]);
    assert(s == join_with(p3, '.') + seq!['.'] + parts[3]);
    assert(s =~= dotted_quad(a, b, c, d));
}

/// The last label of a domain is the text after its last `.`: it holds no
/// `.`, the domain ends with it, and a `.` stands just before it when it is not
/// the whole domain.
pub proof fn law_last_label_follows_last_dot(domain: Seq<char>)
    ensures
        lacks(last_label(domain), '.'),
        ends_with_seq(domain, last_label(domain)),
        last_label(domain).len() < domain.len() ==> domain[domain.len() - last_label(domain).len() - 1]
            == '.',
{
    lemma_split_on_nonempty(domain, '.');
    lemma_split_on_pieces_lack_sep(domain, '.');
    let parts = split_on(domain, '.');
    assert(lacks(parts[parts.len() - 1], '.'));
    lemma_join_split(domain, '.');
    let l = parts.last();
    if parts.len() == 1 {
        assert(domain == l);
        assert(domain.subrange(0, domain.len() as int) =~= domain);
    } else {
        let pre = join_with(parts.drop_last(), '.');
        assert(domain == pre + seq!['.'] + l);
        assert(domain.subrange(domain.len() - l.len(), domain.len() as int) =~= l);
        assert(domain[domain.len() - l.len() - 1] == '.');
    }
}

/// The TLD check accepts a domain exactly when its last label is, in full, one
/// of the entries of the table; a label that only begins with an entry is refused.
pub proof fn law_tld_is_a_whole_table_entry(domain: Seq<char>)
    ensures
        is_tld_legal_spec(domain) <==> exists|i: int|
            0 <= i < split_on(KNOWN_TLDS@, ' ').len() && #[trigger] split_on(KNOWN_TLDS@, ' ')[i]
                == last_label(domain),
{
}

/// A listed domain matches a host only when the host is that domain or ends
/// with a `.` followed by it; so a host never matches a listed domain longer
/// than itself, and a parent domain is never matched by one of its subdomains.
pub proof fn law_domain_match_is_self_or_subdomain(host: Seq<char>, listed: Seq<char>)
    ensures
        domain_matches_spec(host, listed) ==> host == listed || (host.len() > listed.len()
            && host[host.len() - listed.len() - 1] == '.' && host.subrange(
            host.len() - listed.len(),
            host.len() as int,
        ) == listed),
        host == listed || (host.len() > listed.len() && host[host.len() - listed.len() - 1] == '.'
            && host.subrange(host.len() - listed.len(), host.len() as int) == listed)
            ==> domain_matches_spec(host, listed),
        host.len() < listed.len() ==> !domain_matches_spec(host, listed),
{
    let dotted = seq!['.'] + listed;
    if domain_matches_spec(host, listed) && host != listed {
        let tail = host.subrange(host.len() - dotted.len(), host.len() as int);
        assert(tail == dotted);
        assert(tail[0] == '.');
        assert(host.subrange(host.len() - listed.len(), host.len() as int) =~= tail.drop_first());
        assert(tail[0] == host[host.len() - listed.len() - 1]);
    }
    if host != listed && host.len() > listed.len() && host[host.len() - listed.len() - 1] == '.'
        && host.subrange(host.len() - listed.len(), host.len() as int) == listed {
        let tail = host.subrange(host.len() - dotted.len(), host.len() as int);
        let rest = host.subrange(host.len() - listed.len(), host.len() as int);
        assert forall|i: int| 0 <= i < tail.len() implies tail[i] == dotted[i] by {
            if i > 0 {
                assert(tail[i] == rest[i - 1]);
                assert(dotted[i] == listed[i - 1]);
            } else {
                assert(tail[0] == host[host.len() - listed.len() - 1]);
            }
        }
        assert(tail =~= dotted);
        assert(ends_with_seq(host, dotted));
        assert(domain_matches_spec(host, listed));
    }
}

} // verus!
