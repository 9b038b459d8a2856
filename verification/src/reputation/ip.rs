//! Recognition of IP-address literals in URL hosts, with the grammar that
//! `Ipv4Addr` / `Ipv6Addr` parsing accepts.

use vstd::prelude::*;
use crate::text::{contains_seq, find_chars, lemma_split_on_adjacent_seps, lemma_split_on_last_empty, lemma_split_on_nonempty, occurs_at, seqs_of, chars_of, split_chars, split_on};

verus! {

pub open spec fn is_ascii_digit(c: char) -> bool {
    '0' <= c && c <= '9'
}

pub open spec fn is_hex_digit(c: char) -> bool {
    is_ascii_digit(c) || ('a' <= c && c <= 'f') || ('A' <= c && c <= 'F')
}

/// The value of a string of decimal digits.
pub open spec fn decimal_value(s: Seq<char>) -> nat
    decreases s.len(),
{
    if s.len() == 0 {
        0
    } else {
        decimal_value(s.drop_last()) * 10 + ((s.last() as nat) - ('0' as nat)) as nat
    }
}

/// One dotted-quad octet: one to three decimal digits, no leading zero, at most 255.
pub open spec fn is_ipv4_octet(s: Seq<char>) -> bool {
    &&& 1 <= s.len() <= 3
    &&& forall|i: int| 0 <= i < s.len() ==> #[trigger] is_ascii_digit(s[i])
    &&& (s.len() > 1 ==> s[0] != '0')
    &&& decimal_value(s) <= 255
}

/// Dotted-quad IPv4 text: exactly four octets separated by `.`.
pub open spec fn is_ipv4_text(s: Seq<char>) -> bool {
    let parts = split_on(s, '.');
    parts.len() == 4 && forall|i: int| 0 <= i < 4 ==> #[trigger] is_ipv4_octet(parts[i])
}

/// One IPv6 group: one to four hexadecimal digits.
pub open spec fn is_hex_group(g: Seq<char>) -> bool {
    1 <= g.len() <= 4 && forall|i: int| 0 <= i < g.len() ==> #[trigger] is_hex_digit(g[i])
}

/// The number of 16-bit pieces that a `:`-separated list of groups denotes; an
/// embedded IPv4 address, allowed only as the last item and only when `allow_v4`,
/// counts for two. `None` when the text is no such list. The empty text is the
/// empty list.
pub open spec fn group_list_pieces(s: Seq<char>, allow_v4: bool) -> Option<nat> {
    if s.len() == 0 {
        Some(0)
    } else {
        let parts = split_on(s, ':');
        let n = parts.len();
        if n >= 1 && forall|i: int| 0 <= i < n - 1 ==> #[trigger] is_hex_group(parts[i]) {
            if is_hex_group(parts[n - 1]) {
                Some(n)
            } else if allow_v4 && is_ipv4_text(parts[n - 1]) {
                Some(n + 1)
            } else {
                None
            }
        } else {
            None
        }
    }
}

pub open spec fn double_colon() -> Seq<char> {
    seq![':', ':']
}

/// `s` is `head ++ "::" ++ tail` with the `::` at index `k`, where the head is a
/// plain group list, the tail a group list that may end in an IPv4 address, and
/// together they leave at least one group for the `::` to stand for.
pub open spec fn compressed_at(s: Seq<char>, k: int) -> bool {
    &&& occurs_at(s, double_colon(), k)
    &&& match (group_list_pieces(s.take(k), false), group_list_pieces(s.skip(k + 2), true)) {
        (Some(h), Some(m)) => h + m <= 7,
        _ => false,
    }
}

/// Textual IPv6 address: eight pieces in full, or a `::`-compressed form.
pub open spec fn is_ipv6_text(s: Seq<char>) -> bool {
    if contains_seq(s, double_colon()) {
        exists|k: int| compressed_at(s, k)
    } else {
        group_list_pieces(s, true) == Some(8nat)
    }
}

/// `s` without any leading `c` characters.
pub open spec fn strip_leading(s: Seq<char>, c: char) -> Seq<char>
    decreases s.len(),
{
    if s.len() > 0 && s[0] == c {
        strip_leading(s.drop_first(), c)
    } else {
        s
    }
}

/// `s` without any trailing `c` characters.
pub open spec fn strip_trailing(s: Seq<char>, c: char) -> Seq<char>
    decreases s.len(),
{
    if s.len() > 0 && s.last() == c {
        strip_trailing(s.drop_last(), c)
    } else {
        s
    }
}

/// A URL host that is an IP literal: a dotted-quad IPv4 address, or an IPv6
/// address once the surrounding brackets are stripped.
pub open spec fn is_ip_host(host: Seq<char>) -> bool {
    is_ipv4_text(host) || is_ipv6_text(strip_trailing(strip_leading(host, '['), ']'))
}

fn is_ascii_digit_exec(c: char) -> (r: bool)
    ensures
        r == is_ascii_digit(c),
{
    '0' <= c && c <= '9'
}

fn is_hex_digit_exec(c: char) -> (r: bool)
    ensures
        r == is_hex_digit(c),
{
    ('0' <= c && c <= '9') || ('a' <= c && c <= 'f') || ('A' <= c && c <= 'F')
}

proof fn lemma_decimal_value_bound(s: Seq<char>)
    requires
        forall|i: int| 0 <= i < s.len() ==> #[trigger] is_ascii_digit(s[i]),
        s.len() <= 3,
    ensures
        decimal_value(s) <= 999,
    decreases s.len(),
{
    if s.len() > 0 {
        assert forall|i: int| 0 <= i < s.drop_last().len() implies #[trigger] is_ascii_digit(
            s.drop_last()[i],
        ) by {
            assert(s.drop_last()[i] == s[i]);
        }
        lemma_decimal_value_bound(s.drop_last());
        assert(is_ascii_digit(s[s.len() - 1]));
        if s.len() == 1 {
            assert(s.drop_last().len() == 0);
        } else if s.len() == 2 {
            lemma_decimal_value_small(s.drop_last());
        } else {
            lemma_decimal_value_small2(s.drop_last());
        }
    }
}

proof fn lemma_decimal_value_small(s: Seq<char>)
    requires
        s.len() == 1,
        is_ascii_digit(s[0]),
    ensures
        decimal_value(s) <= 9,
{
    assert(s.drop_last().len() == 0);
    assert(decimal_value(s.drop_last()) == 0);
    assert((s[0] as nat) <= ('9' as nat));
    assert(s.last() == s[0]);
}

proof fn lemma_decimal_value_small2(s: Seq<char>)
    requires
        s.len() == 2,
        is_ascii_digit(s[0]),
        is_ascii_digit(s[1]),
    ensures
        decimal_value(s) <= 99,
{
    let t = s.drop_last();
    assert(t.len() == 1 && t[0] == s[0]);
    lemma_decimal_value_small(t);
}

/// Whether `s` is one dotted-quad octet.
fn is_ipv4_octet_exec(s: &[char]) -> (r: bool)
    ensures
        r == is_ipv4_octet(s@),
{
    if s.len() < 1 || s.len() > 3 {
        return false;
    }
    let mut value: u32 = 0;
    for i in 0..s.len()
        invariant
            1 <= s.len() <= 3,
            forall|j: int| 0 <= j < i ==> #[trigger] is_ascii_digit(s@[j]),
            value == decimal_value(s@.take(i as int)),
            value <= 999,
    {
        if !is_ascii_digit_exec(s[i]) {
            return false;
        }
        let ghost t = s@.take(i + 1);
        assert(t.drop_last() == s@.take(i as int));
        assert forall|j: int| 0 <= j < t.len() implies #[trigger] is_ascii_digit(t[j]) by {
            assert(t[j] == s@[j]);
        }
        proof {
            lemma_decimal_value_bound(t);
        }
        value = value * 10 + ((s[i] as u32) - ('0' as u32));
    }
    assert(s@.take(s.len() as int) == s@);
    if s.len() > 1 && s[0] == '0' {
        return false;
    }
    value <= 255
}

/// Whether `s` is dotted-quad IPv4 text.
pub fn is_ipv4_text_exec(s: &[char]) -> (r: bool)
    ensures
        r == is_ipv4_text(s@),
{
    let parts = split_chars(s, '.');
    if parts.len() != 4 {
        return false;
    }
    for i in 0..4
        invariant
            parts.len() == 4,
            seqs_of(parts@) == split_on(s@, '.'),
            forall|j: int| 0 <= j < i ==> #[trigger] is_ipv4_octet(split_on(s@, '.')[j]),
    {
        assert(parts@[i as int]@ == split_on(s@, '.')[i as int]);
        if !is_ipv4_octet_exec(parts[i].as_slice()) {
            return false;
        }
    }
    true
}

fn is_hex_group_exec(g: &[char]) -> (r: bool)
    ensures
        r == is_hex_group(g@),
{
    if g.len() < 1 || g.len() > 4 {
        return false;
    }
    for i in 0..g.len()
        invariant
            forall|j: int| 0 <= j < i ==> #[trigger] is_hex_digit(g@[j]),
    {
        if !is_hex_digit_exec(g[i]) {
            return false;
        }
    }
    true
}

/// The number of pieces a group list denotes (see `group_list_pieces`).
/// The result is the number of `:`-separated items and whether the last one is an
/// IPv4 address (which counts for two pieces).
fn group_list_pieces_exec(s: &[char], allow_v4: bool) -> (r: Option<(usize, bool)>)
    ensures
        match r {
            Some((n, v4)) => group_list_pieces(s@, allow_v4) == Some(
                (n + if v4 { 1nat } else { 0nat }) as nat,
            ),
            None => group_list_pieces(s@, allow_v4) is None,
        },
{
    if s.len() == 0 {
        return Some((0, false));
    }
    let parts = split_chars(s, ':');
    proof {
        lemma_split_on_nonempty(s@, ':');
    }
    let n = parts.len();
    assert(seqs_of(parts@).len() == n);
    for i in 0..n - 1
        invariant
            n == parts.len(),
            n >= 1,
            seqs_of(parts@) == split_on(s@, ':'),
            forall|j: int| 0 <= j < i ==> #[trigger] is_hex_group(split_on(s@, ':')[j]),
    {
        assert(parts@[i as int]@ == split_on(s@, ':')[i as int]);
        if !is_hex_group_exec(parts[i].as_slice()) {
            return None;
        }
    }
    assert(parts@[n - 1]@ == split_on(s@, ':')[n - 1]);
    if is_hex_group_exec(parts[n - 1].as_slice()) {
        Some((n, false))
    } else if allow_v4 && is_ipv4_text_exec(parts[n - 1].as_slice()) {
        Some((n, true))
    } else {
        None
    }
}

/// A head that itself holds a `::` (or ends in `:`) is no plain group list, so
/// the `::` of a compressed address can only be its first one.
proof fn lemma_head_past_first_double_colon(s: Seq<char>, k0: int, k1: int)
    requires
        occurs_at(s, double_colon(), k0),
        k0 < k1 <= s.len(),
    ensures
        group_list_pieces(s.take(k1), false) is None,
{
    let x = s.take(k1);
    assert(s.subrange(k0, k0 + 2)[0] == ':' && s.subrange(k0, k0 + 2)[1] == ':');
    assert(s[k0] == ':');
    lemma_split_on_nonempty(x, ':');
    let parts = split_on(x, ':');
    if k0 + 1 == k1 {
        assert(x.last() == s[k0]);
        lemma_split_on_last_empty(x, ':');
        assert(!is_hex_group(parts[parts.len() - 1]));
    } else {
        assert(s[k0 + 1] == ':');
        assert(x[k0] == ':' && x[k0 + 1] == ':');
        lemma_split_on_adjacent_seps(x, ':', k0);
        let j = choose|j: int| 0 <= j < parts.len() - 1 && (#[trigger] parts[j]).len() == 0;
        assert(!is_hex_group(parts[j]));
    }
}

fn pieces_total(p: (usize, bool)) -> (r: usize)
    requires
        p.0 < 100,
    ensures
        r == p.0 + if p.1 { 1nat } else { 0nat },
{
    if p.1 { p.0 + 1 } else { p.0 }
}

/// Whether `s` is a textual IPv6 address.
pub fn is_ipv6_text_exec(s: &[char]) -> (r: bool)
    ensures
        r == is_ipv6_text(s@),
{
    let dc = [':', ':'];
    assert(dc@ == double_colon());
    match find_chars(s, &dc) {
        None => {
            match group_list_pieces_exec(s, true) {
                Some(p) => p.0 < 100 && pieces_total(p) == 8,
                None => false,
            }
        },
        Some(k) => {
            let (head, rest) = s.split_at(k);
            let (_, tail) = rest.split_at(2);
            assert(head@ == s@.take(k as int));
            assert(tail@ == s@.skip(k + 2));
            let h = group_list_pieces_exec(head, false);
            let m = group_list_pieces_exec(tail, true);
            let ok = match (h, m) {
                (Some(hp), Some(mp)) => hp.0 < 100 && mp.0 < 100 && pieces_total(hp)
                    + pieces_total(mp) <= 7,
                _ => false,
            };
            proof {
                assert(contains_seq(s@, double_colon()));
                if !ok {
                    assert forall|k1: int| !compressed_at(s@, k1) by {
                        if k1 > k {
                            if occurs_at(s@, double_colon(), k1) {
                                lemma_head_past_first_double_colon(s@, k as int, k1);
                            }
                        }
                    }
                } else {
                    assert(compressed_at(s@, k as int));
                }
            }
            ok
        },
    }
}

/// The index at which `s` starts once every leading `c` is removed.
fn strip_leading_exec(s: &[char], c: char) -> (r: usize)
    ensures
        r <= s.len(),
        s@.skip(r as int) == strip_leading(s@, c),
{
    let mut i: usize = 0;
    assert(s@.skip(0) == s@);
    while i < s.len() && s[i] == c
        invariant
            i <= s.len(),
            strip_leading(s@.skip(i as int), c) == strip_leading(s@, c),
        decreases s.len() - i,
    {
        assert(s@.skip(i as int).drop_first() == s@.skip(i + 1));
        i = i + 1;
    }
    i
}

/// The length that `s` keeps once every trailing `c` is removed.
fn strip_trailing_exec(s: &[char], c: char) -> (r: usize)
    ensures
        r <= s.len(),
        s@.take(r as int) == strip_trailing(s@, c),
{
    let mut i: usize = s.len();
    assert(s@.take(s.len() as int) == s@);
    while i > 0 && s[i - 1] == c
        invariant
            i <= s.len(),
            strip_trailing(s@.take(i as int), c) == strip_trailing(s@, c),
        decreases i,
    {
        assert(s@.take(i as int).drop_last() == s@.take(i - 1));
        i = i - 1;
    }
    i
}

/// Whether a URL host is an IP literal (IPv4, or IPv6 inside brackets).
pub fn is_ip_host_exec(host: &str) -> (r: bool)
    ensures
        r == is_ip_host(host@),
{
    let h = chars_of(host);
    if is_ipv4_text_exec(h.as_slice()) {
        return true;
    }
    let start = strip_leading_exec(h.as_slice(), '[');
    let (_, rest) = h.as_slice().split_at(start);
    let end = strip_trailing_exec(rest, ']');
    let (inner, _) = rest.split_at(end);
    assert(inner@ == strip_trailing(strip_leading(h@, '['), ']'));
    is_ipv6_text_exec(inner)
}

} // verus!
