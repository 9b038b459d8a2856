//! Domain lists and pattern lists: exact membership, substring patterns,
//! parent-domain matching and regular-expression patterns.

use vstd::prelude::*;
use crate::reputation::regex_pattern::{regex_matches, CompiledPattern};
use crate::text::{chars_eq, chars_of, contains_chars, contains_seq, ends_with_chars, ends_with_seq};

verus! {

/// `domain` is `candidate` itself or one of its subdomains.
pub open spec fn domain_matches_spec(domain: Seq<char>, candidate: Seq<char>) -> bool {
    domain == candidate || ends_with_seq(domain, seq!['.'] + candidate)
}

/// Whether `domain` equals `candidate` or ends with `.candidate`.
pub fn domain_matches(domain: &str, candidate: &str) -> (r: bool)
    ensures
        r == domain_matches_spec(domain@, candidate@),
{
    let d = chars_of(domain);
    let c = chars_of(candidate);
    if chars_eq(d.as_slice(), c.as_slice()) {
        return true;
    }
    let mut dotted: Vec<char> = Vec::new();
    dotted.push('.');
    crate::text::extend_chars(&mut dotted, c.as_slice());
    assert(dotted@ == seq!['.'] + candidate@);
    ends_with_chars(d.as_slice(), dotted.as_slice())
}

/// Whether some entry of `list` matches `domain` (see `domain_matches`).
pub fn any_domain_matches(domain: &str, list: &[String]) -> (r: bool)
    ensures
        r == exists|i: int| 0 <= i < list@.len() && domain_matches_spec(domain@, #[trigger] list@[i]@),
{
    for i in 0..list.len()
        invariant
            forall|j: int| 0 <= j < i ==> !domain_matches_spec(domain@, #[trigger] list@[j]@),
    {
        if domain_matches(domain, list[i].as_str()) {
            return true;
        }
    }
    false
}

/// Whether `domain` is, exactly, one of `blocked_domains`.
pub fn in_blocked_list(domain: &str, blocked_domains: &[&str]) -> (r: bool)
    ensures
        r == exists|i: int| 0 <= i < blocked_domains@.len() && (#[trigger] blocked_domains@[i])@
            == domain@,
{
    let d = chars_of(domain);
    for i in 0..blocked_domains.len()
        invariant
            d@ == domain@,
            forall|j: int| 0 <= j < i ==> (#[trigger] blocked_domains@[j])@ != domain@,
    {
        let b = chars_of(blocked_domains[i]);
        if chars_eq(b.as_slice(), d.as_slice()) {
            return true;
        }
    }
    false
}

/// Whether some of `blocked_patterns` occurs as a substring of `domain`.
pub fn in_blocked_patterns(domain: &str, blocked_patterns: &[&str]) -> (r: bool)
    ensures
        r == exists|i: int| 0 <= i < blocked_patterns@.len() && contains_seq(
            domain@,
            (#[trigger] blocked_patterns@[i])@,
        ),
{
    let d = chars_of(domain);
    for i in 0..blocked_patterns.len()
        invariant
            d@ == domain@,
            forall|j: int| 0 <= j < i ==> !contains_seq(domain@, (#[trigger] blocked_patterns@[j])@),
    {
        let p = chars_of(blocked_patterns[i]);
        if contains_chars(d.as_slice(), p.as_slice()) {
            return true;
        }
    }
    false
}

/// Some regex of `patterns` matches `text`.
pub open spec fn any_regex_matches(text: Seq<char>, patterns: Seq<CompiledPattern>) -> bool {
    exists|i: int| 0 <= i < patterns.len() && regex_matches((#[trigger] patterns[i]).source(), text)
}

fn any_regex_match(text: &str, patterns: &[CompiledPattern]) -> (r: bool)
    ensures
        r == any_regex_matches(text@, patterns@),
{
    for i in 0..patterns.len()
        invariant
            forall|j: int| 0 <= j < i ==> !regex_matches((#[trigger] patterns@[j]).source(), text@),
    {
        if patterns[i].is_match(text) {
            return true;
        }
    }
    false
}

/// Whether some blocked regex matches `domain`.
pub fn in_blocked_patterns_regex(domain: &str, blocked_patterns: &[CompiledPattern]) -> (r: bool)
    ensures
        r == any_regex_matches(domain@, blocked_patterns@),
{
    any_regex_match(domain, blocked_patterns)
}

/// Whether some allowed regex matches `domain`.
pub fn in_allow_patterns_regex(domain: &str, allowed_patterns: &[CompiledPattern]) -> (r: bool)
    ensures
        r == any_regex_matches(domain@, allowed_patterns@),
{
    any_regex_match(domain, allowed_patterns)
}

/// Compiles every pattern, keeping those that compile, in order.
pub fn compile_patterns(patterns: &[String]) -> (r: Vec<CompiledPattern>)
    ensures
        r@.map_values(|c: CompiledPattern| c.source()) == patterns@.map_values(|p: String| p@).filter(
            |p: Seq<char>| crate::reputation::regex_pattern::regex_compiles(p),
        ),
{
    let mut out: Vec<CompiledPattern> = Vec::new();
    let ghost srcs = patterns@.map_values(|p: String| p@);
    let ghost pred = |p: Seq<char>| crate::reputation::regex_pattern::regex_compiles(p);
    for i in 0..patterns.len()
        invariant
            srcs == patterns@.map_values(|p: String| p@),
            pred == (|p: Seq<char>| crate::reputation::regex_pattern::regex_compiles(p)),
            out@.map_values(|c: CompiledPattern| c.source()) == srcs.take(i as int).filter(pred),
    {
        assert(srcs.take(i + 1).drop_last() == srcs.take(i as int));
        reveal_with_fuel(Seq::filter, 1);
        let ghost before = out@;
        match CompiledPattern::compile(patterns[i].as_str()) {
            Some(c) => {
                out.push(c);
                assert(out@.map_values(|c: CompiledPattern| c.source()) =~= before.map_values(
                    |c: CompiledPattern| c.source(),
                ).push(srcs[i as int]));
            },
            None => {},
        }
    }
    assert(srcs.take(patterns.len() as int) == srcs);
    out
}

} // verus!
