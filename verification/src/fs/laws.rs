//! Properties of paths, the sandbox and edits.

use vstd::prelude::*;
use crate::fs::edit::{apply_edits_spec, replace_all};
use crate::fs::path::{ancestors_spec, body_components, body_start, components, cur_comp, file_name_spec, has_leading_cur_dir, is_normal, is_rooted, is_skipped_segment, join_spec, last_sep, lemma_last_sep_bounds, lemma_trim_tail_prefix, parent_spec, path_starts_with, root_comp, seg_cut, seg_start, trim_tail};
use crate::fs::info::{octal_digit, octal_digits};
use crate::fs::read::successes;
use crate::fs::sandbox::Sandbox;
use crate::text::{contains_seq, lacks, lemma_split_on_concat, lemma_split_on_nonempty, lemma_split_on_pieces_lack_sep, lemma_split_on_single, occurs_at, split_on};

verus! {

/// Every path starts with itself.
pub proof fn law_starts_with_reflexive(p: Seq<char>)
    ensures
        path_starts_with(p, p),
{
    let a = crate::fs::path::components(p);
    assert(a.take(a.len() as int) =~= a);
}

/// A path below `q`, where `q` is below `r`, is below `r`.
pub proof fn law_starts_with_transitive(p: Seq<char>, q: Seq<char>, r: Seq<char>)
    requires
        path_starts_with(p, q),
        path_starts_with(q, r),
    ensures
        path_starts_with(p, r),
{
    let a = crate::fs::path::components(p);
    let b = crate::fs::path::components(q);
    let c = crate::fs::path::components(r);
    assert forall|i: int| 0 <= i < c.len() implies a.take(c.len() as int)[i] == c[i] by {
        assert(a.take(b.len() as int)[i] == b[i]);
        assert(b.take(c.len() as int)[i] == c[i]);
    }
    assert(a.take(c.len() as int) =~= c);
}

/// Every root of the sandbox lies in the sandbox.
pub proof fn law_roots_are_inside(s: Sandbox, i: int)
    requires
        0 <= i < s.roots_view().len(),
    ensures
        s.contains_spec(s.roots_view()[i]),
{
    law_starts_with_reflexive(s.roots_view()[i]);
}

/// Whatever lies below a path that is in the sandbox is in the sandbox.
pub proof fn law_inside_is_downward_closed(s: Sandbox, p: Seq<char>, q: Seq<char>)
    requires
        s.contains_spec(q),
        path_starts_with(p, q),
    ensures
        s.contains_spec(p),
{
    let i = choose|i: int| 0 <= i < s.roots_view().len() && path_starts_with(q, #[trigger] s.roots_view()[i]);
    law_starts_with_transitive(p, q, s.roots_view()[i]);
}

/// Replacing a text by itself changes nothing.
pub proof fn law_replace_with_itself(s: Seq<char>, pat: Seq<char>)
    ensures
        replace_all(s, pat, pat) == s,
    decreases s.len(),
{
    if pat.len() == 0 {
        if s.len() > 0 {
            law_replace_with_itself(s.drop_first(), pat);
            assert(s =~= seq![s[0]] + s.drop_first());
        }
    } else if s.len() < pat.len() {
    } else if s.take(pat.len() as int) == pat {
        law_replace_with_itself(s.skip(pat.len() as int), pat);
        assert(s =~= s.take(pat.len() as int) + s.skip(pat.len() as int));
    } else {
        law_replace_with_itself(s.drop_first(), pat);
        assert(s =~= seq![s[0]] + s.drop_first());
    }
}

/// Replacing a non-empty text that does not occur changes nothing.
pub proof fn law_replace_absent(s: Seq<char>, pat: Seq<char>, rep: Seq<char>)
    requires
        pat.len() > 0,
        !contains_seq(s, pat),
    ensures
        replace_all(s, pat, rep) == s,
    decreases s.len(),
{
    if s.len() >= pat.len() {
        assert(!occurs_at(s, pat, 0));
        assert(s.subrange(0, pat.len() as int) == s.take(pat.len() as int));
        assert forall|i: int| !occurs_at(s.drop_first(), pat, i) by {
            if occurs_at(s.drop_first(), pat, i) {
                assert(s.drop_first().subrange(i, i + pat.len()) =~= s.subrange(i + 1, i + 1 + pat.len()));
                assert(occurs_at(s, pat, i + 1));
            }
        }
        law_replace_absent(s.drop_first(), pat, rep);
        assert(s =~= seq![s[0]] + s.drop_first());
    }
}

/// An edit whose text does not occur leaves the content as it is.
pub proof fn law_absent_edit_is_noop(content: Seq<char>, old: Seq<char>, new: Seq<char>)
    requires
        !contains_seq(content, old),
    ensures
        apply_edits_spec(content, seq![(old, new)]) == content,
{
    let es = seq![(old, new)];
    assert(es.drop_last() =~= Seq::<(Seq<char>, Seq<char>)>::empty());
    assert(apply_edits_spec(content, es.drop_last()) == content);
    assert(es.last() == (old, new));
}

/// An edit that puts back the text it finds leaves the content as it is.
pub proof fn law_identity_edit_is_noop(content: Seq<char>, text: Seq<char>)
    ensures
        apply_edits_spec(content, seq![(text, text)]) == content,
{
    let es = seq![(text, text)];
    assert(es.drop_last() =~= Seq::<(Seq<char>, Seq<char>)>::empty());
    assert(apply_edits_spec(content, es.drop_last()) == content);
    assert(es.last() == (text, text));
    law_replace_with_itself(content, text);
}

proof fn lemma_body_single(x: Seq<char>)
    ensures
        body_components(seq![x]) == if is_skipped_segment(x) {
            Seq::<Seq<char>>::empty()
        } else {
            seq![x]
        },
{
    assert(seq![x].drop_last() =~= Seq::<Seq<char>>::empty());
    assert(body_components(Seq::<Seq<char>>::empty()) == Seq::<Seq<char>>::empty());
    assert(seq![x].last() == x);
    if !is_skipped_segment(x) {
        assert(Seq::<Seq<char>>::empty().push(x) =~= seq![x]);
    }
}

proof fn lemma_body_concat(a: Seq<Seq<char>>, b: Seq<Seq<char>>)
    ensures
        body_components(a + b) == body_components(a) + body_components(b),
    decreases b.len(),
{
    if b.len() == 0 {
        assert(a + b =~= a);
        assert(body_components(a) + body_components(b) =~= body_components(a));
    } else {
        lemma_body_concat(a, b.drop_last());
        assert((a + b).drop_last() =~= a + b.drop_last());
        assert((a + b).last() == b.last());
        if is_skipped_segment(b.last()) {
        } else {
            assert(body_components(a + b) =~= body_components(a) + body_components(b));
        }
    }
}

/// A component that names something: not empty, no `/`, not `.`.
pub open spec fn is_named_piece(c: Seq<char>) -> bool {
    c.len() > 0 && lacks(c, '/') && c != cur_comp()
}

proof fn lemma_body_pieces_named(segs: Seq<Seq<char>>)
    requires
        forall|i: int| 0 <= i < segs.len() ==> lacks(#[trigger] segs[i], '/'),
    ensures
        forall|i: int| 0 <= i < body_components(segs).len() ==> is_named_piece(#[trigger] body_components(segs)[i]),
    decreases segs.len(),
{
    if segs.len() > 0 {
        assert forall|i: int| 0 <= i < segs.drop_last().len() implies lacks(#[trigger] segs.drop_last()[i], '/') by {
            assert(segs.drop_last()[i] == segs[i]);
        }
        lemma_body_pieces_named(segs.drop_last());
        assert(lacks(segs[segs.len() - 1], '/'));
        let init = body_components(segs.drop_last());
        if !is_skipped_segment(segs.last()) {
            assert forall|i: int| 0 <= i < body_components(segs).len() implies is_named_piece(
                #[trigger] body_components(segs)[i],
            ) by {
                if i < init.len() {
                    assert(body_components(segs)[i] == init[i]);
                } else {
                    assert(body_components(segs)[i] == segs.last());
                }
            }
        }
    }
}

/// A well-formed component list: a root only in front, every other component a
/// named piece, and a current-directory marker only in front.
pub open spec fn wf_components(cs: Seq<Seq<char>>) -> bool {
    forall|i: int|
        0 <= i < cs.len() ==> (i == 0 && #[trigger] cs[i] == root_comp()) || (cs[i].len() > 0 && lacks(
            cs[i],
            '/',
        ) && (i > 0 ==> cs[i] != cur_comp()))
}

proof fn lemma_components_wf(p: Seq<char>)
    ensures
        wf_components(components(p)),
{
    let segs = split_on(p, '/');
    lemma_split_on_pieces_lack_sep(p, '/');
    lemma_body_pieces_named(segs);
    let pre = (if is_rooted(p) { seq![root_comp()] } else { Seq::empty() }) + (if has_leading_cur_dir(p) {
        seq![cur_comp()]
    } else {
        Seq::empty()
    });
    let body = body_components(segs);
    assert(pre.len() <= 1);
    let cs = components(p);
    assert forall|i: int| 0 <= i < cs.len() implies (i == 0 && #[trigger] cs[i] == root_comp()) || (cs[i].len() > 0
        && lacks(cs[i], '/') && (i > 0 ==> cs[i] != cur_comp())) by {
        if i < pre.len() {
            if is_rooted(p) {
                assert(cs[i] == root_comp());
            } else {
                assert(cs[i] == cur_comp());
                assert(lacks(cur_comp(), '/'));
            }
        } else {
            assert(cs[i] == body[i - pre.len()]);
            assert(is_named_piece(body[i - pre.len()]));
        }
    }
}

/// The components of a text followed by one more segment.
proof fn lemma_body_push(a: Seq<Seq<char>>, x: Seq<char>)
    ensures
        body_components(a + seq![x]) == body_components(a) + if is_skipped_segment(x) {
            Seq::<Seq<char>>::empty()
        } else {
            seq![x]
        },
{
    assert((a + seq![x]).drop_last() =~= a);
    assert((a + seq![x]).last() == x);
    assert(body_components(a) + Seq::<Seq<char>>::empty() =~= body_components(a));
}

/// Cutting off the last segment of a text (past its body start) removes that
/// segment's component, if it names one, and keeps the root and the leading
/// `.`.
proof fn lemma_components_cut(q: Seq<char>)
    requires
        q.len() > body_start(q),
    ensures
        body_start(q.take(seg_cut(q, body_start(q)))) == body_start(q),
        is_rooted(q.take(seg_cut(q, body_start(q)))) == is_rooted(q),
        lacks(q.subrange(seg_start(q, body_start(q)), q.len() as int), '/'),
        components(q) == components(q.take(seg_cut(q, body_start(q)))) + if is_skipped_segment(
            q.subrange(seg_start(q, body_start(q)), q.len() as int),
        ) {
            Seq::<Seq<char>>::empty()
        } else {
            seq![q.subrange(seg_start(q, body_start(q)), q.len() as int)]
        },
{
    let b = body_start(q);
    lemma_last_sep_bounds(q, b);
    let k = last_sep(q, b);
    let seg = q.subrange(seg_start(q, b), q.len() as int);
    let x = q.take(seg_cut(q, b));
    assert forall|j: int| 0 <= j < seg.len() implies seg[j] != '/' by {
        assert(seg[j] == q[seg_start(q, b) + j]);
    }
    lemma_split_on_single(seg, '/');
    let empty = Seq::<char>::empty();
    if k >= 0 {
        assert(q =~= x + seq!['/'] + seg);
        lemma_split_on_concat(x, seg, '/');
        lemma_split_on_nonempty(x, '/');
        lemma_body_push(split_on(x, '/'), seg);
        assert(k >= 1);
        assert(x[0] == q[0]);
        assert(split_on(q, '/')[0] == split_on(x, '/')[0]);
        if x.len() >= 2 {
            assert(x[1] == q[1]);
        }
    } else if b == 0 {
        assert(!is_rooted(q));
        assert(q =~= seg);
        assert(x =~= empty);
        assert(split_on(empty, '/') =~= seq![empty]);
        lemma_body_push(Seq::<Seq<char>>::empty(), empty);
        lemma_body_push(Seq::<Seq<char>>::empty(), seg);
        assert(seq![empty] =~= Seq::<Seq<char>>::empty() + seq![empty]);
        assert(seq![seg] =~= Seq::<Seq<char>>::empty() + seq![seg]);
        assert(body_components(Seq::<Seq<char>>::empty()) =~= Seq::<Seq<char>>::empty());
    } else {
        assert(q[0] == '/') by {
            if q[0] != '/' {
                assert(q[1] != '/');
            }
        }
        assert(q =~= empty + seq!['/'] + seg);
        assert(x =~= empty + seq!['/'] + empty);
        lemma_split_on_concat(empty, seg, '/');
        lemma_split_on_concat(empty, empty, '/');
        assert(split_on(empty, '/') =~= seq![empty]);
        lemma_body_push(seq![empty], seg);
        lemma_body_push(seq![empty], empty);
        lemma_body_push(Seq::<Seq<char>>::empty(), empty);
        assert(seq![empty] + seq![seg] =~= split_on(q, '/'));
        assert(seq![empty] + seq![empty] =~= split_on(x, '/'));
        assert(seq![empty] =~= Seq::<Seq<char>>::empty() + seq![empty]);
        assert(body_components(Seq::<Seq<char>>::empty()) =~= Seq::<Seq<char>>::empty());
    }
}

/// Trimming trailing separators and `.` segments changes no component.
proof fn lemma_trim_tail_components(q: Seq<char>)
    ensures
        components(trim_tail(q, body_start(q))) == components(q),
        body_start(trim_tail(q, body_start(q))) == body_start(q),
        is_rooted(trim_tail(q, body_start(q))) == is_rooted(q),
    decreases q.len(),
{
    let b = body_start(q);
    if q.len() > b {
        lemma_last_sep_bounds(q, b);
        if is_skipped_segment(q.subrange(seg_start(q, b), q.len() as int)) {
            let x = q.take(seg_cut(q, b));
            lemma_components_cut(q);
            assert(components(x) + Seq::<Seq<char>>::empty() =~= components(x));
            lemma_trim_tail_components(x);
        }
    }
}

/// `Path::parent` drops exactly the last component: a parent exists when the
/// path has a last component other than the root, and its components are the
/// path's components without the last one.
pub proof fn law_parent_drops_last_component(p: Seq<char>)
    ensures
        parent_spec(p) is Some <==> components(p).len() > 0 && components(p).last() != root_comp(),
        parent_spec(p) matches Some(r) ==> components(r) == components(p).drop_last(),
{
    let b = body_start(p);
    let q = trim_tail(p, b);
    lemma_trim_tail_prefix(p, b);
    lemma_trim_tail_components(p);
    let empty = Seq::<char>::empty();
    if q.len() > b {
        lemma_components_cut(q);
        let x = q.take(seg_cut(q, b));
        let seg = q.subrange(seg_start(q, b), q.len() as int);
        lemma_trim_tail_components(x);
        assert(components(q) == components(x) + seq![seg]);
        assert(components(x) =~= components(q).drop_last());
        assert(seg.len() > 0 && seg[0] != '/');
        assert(seg != root_comp());
    } else if b == 1 {
        assert(q =~= p.take(1));
        if is_rooted(p) {
            assert(q =~= empty + seq!['/'] + empty);
            lemma_split_on_concat(empty, empty, '/');
            assert(split_on(empty, '/') =~= seq![empty]);
            lemma_body_push(seq![empty], empty);
            lemma_body_push(Seq::<Seq<char>>::empty(), empty);
            assert(body_components(Seq::<Seq<char>>::empty()) =~= Seq::<Seq<char>>::empty());
            assert(seq![empty] + seq![empty] =~= split_on(q, '/'));
            assert(seq![empty] =~= Seq::<Seq<char>>::empty() + seq![empty]);
            assert(components(q) =~= seq![root_comp()]);
        } else {
            assert(q =~= cur_comp());
            lemma_split_on_single(q, '/');
            lemma_body_push(Seq::<Seq<char>>::empty(), q);
            assert(seq![q] =~= Seq::<Seq<char>>::empty() + seq![q]);
            assert(body_components(Seq::<Seq<char>>::empty()) =~= Seq::<Seq<char>>::empty());
            assert(components(q) =~= seq![cur_comp()]);
            assert(split_on(empty, '/') =~= seq![empty]);
            lemma_body_push(Seq::<Seq<char>>::empty(), empty);
            assert(seq![empty] =~= Seq::<Seq<char>>::empty() + seq![empty]);
            assert(components(empty) =~= Seq::<Seq<char>>::empty());
            assert(parent_spec(p) == Some(empty));
            assert(components(p).drop_last() =~= Seq::<Seq<char>>::empty());
        }
    } else {
        assert(q =~= empty);
        assert(split_on(empty, '/') =~= seq![empty]);
        lemma_body_push(Seq::<Seq<char>>::empty(), empty);
        assert(seq![empty] =~= Seq::<Seq<char>>::empty() + seq![empty]);
        assert(body_components(Seq::<Seq<char>>::empty()) =~= Seq::<Seq<char>>::empty());
        assert(components(q) =~= Seq::<Seq<char>>::empty());
    }
}

/// Each ancestor of a path has, as components, a prefix of the path's
/// components: the path minus its last `k` components for the `k`-th ancestor.
pub proof fn law_ancestors_are_prefixes(p: Seq<char>, k: int)
    requires
        0 <= k < ancestors_spec(p).len(),
    ensures
        ancestors_spec(p).len() <= components(p).len() + 1,
        components(ancestors_spec(p)[k]) == components(p).take(components(p).len() - k),
    decreases p.len(),
{
    let cs = components(p);
    crate::fs::path::lemma_parent_shorter(p);
    law_parent_drops_last_component(p);
    match parent_spec(p) {
        Some(r) => {
            assert(ancestors_spec(p) == seq![p] + ancestors_spec(r));
            law_ancestors_are_prefixes(r, if k > 0 { k - 1 } else { 0 });
            if k == 0 {
                assert(cs.take(cs.len() as int) =~= cs);
            } else {
                assert(ancestors_spec(p)[k] == ancestors_spec(r)[k - 1]);
                assert(cs.drop_last().take(cs.drop_last().len() - (k - 1)) =~= cs.take(cs.len() - k));
            }
        },
        None => {
            assert(cs.take(cs.len() as int) =~= cs);
        },
    }
}

/// The path itself comes first among its ancestors, and every ancestor is a
/// path that the path starts with.
pub proof fn law_path_starts_with_its_ancestors(p: Seq<char>, k: int)
    requires
        0 <= k < ancestors_spec(p).len(),
    ensures
        ancestors_spec(p)[0] == p,
        path_starts_with(p, ancestors_spec(p)[k]),
{
    law_ancestors_are_prefixes(p, k);
    let cs = components(p);
    assert(cs.take(cs.len() - k).len() == cs.len() - k);
    assert(cs.take(cs.len() - k) =~= cs.take(cs.len() - k));
}

/// A file name taken from a path is a plain name: not empty, no `/`, and
/// neither `.` nor `..`.
pub proof fn law_file_names_are_plain(p: Seq<char>)
    requires
        file_name_spec(p) is Some,
    ensures
        ({
            let n = file_name_spec(p).unwrap();
            n.len() > 0 && lacks(n, '/') && is_normal(n)
        }),
{
    lemma_components_wf(p);
    let cs = components(p);
    assert(cs[cs.len() - 1] != root_comp());
}

/// Joining a directory and a plain name adds the name as one last component.
pub proof fn law_join_adds_one_component(d: Seq<char>, n: Seq<char>)
    requires
        n.len() > 0,
        lacks(n, '/'),
        is_normal(n),
    ensures
        components(join_spec(d, n)) == components(d).push(n),
{
    let empty = Seq::<char>::empty();
    lemma_split_on_single(n, '/');
    assert(is_named_piece(n));
    lemma_body_single(n);
    if d.len() == 0 {
        assert(join_spec(d, n) =~= n);
        assert(split_on(d, '/') =~= seq![empty]);
        assert(n[0] != '/');
        lemma_body_single(empty);
        assert(components(d) =~= Seq::<Seq<char>>::empty());
        assert(components(n) =~= seq![n]);
    } else if d.last() == '/' {
        let dp = d.drop_last();
        assert(d =~= dp + seq!['/'] + empty);
        assert(join_spec(d, n) =~= dp + seq!['/'] + n);
        lemma_split_on_concat(dp, empty, '/');
        lemma_split_on_concat(dp, n, '/');
        lemma_split_on_nonempty(dp, '/');
        assert(split_on(empty, '/') =~= seq![empty]);
        lemma_body_concat(split_on(dp, '/'), seq![empty]);
        lemma_body_concat(split_on(dp, '/'), seq![n]);
        lemma_body_single(empty);
        assert(join_spec(d, n)[0] == d[0]);
        assert(split_on(join_spec(d, n), '/')[0] == split_on(d, '/')[0]);
        assert(components(join_spec(d, n)) =~= components(d).push(n));
    } else {
        assert(join_spec(d, n) =~= d + seq!['/'] + n);
        lemma_split_on_concat(d, n, '/');
        lemma_split_on_nonempty(d, '/');
        lemma_body_concat(split_on(d, '/'), seq![n]);
        assert(join_spec(d, n)[0] == d[0]);
        assert(split_on(join_spec(d, n), '/')[0] == split_on(d, '/')[0]);
        assert(components(join_spec(d, n)) =~= components(d).push(n));
    }
}

/// A plain name joined to a directory inside the sandbox stays inside the
/// sandbox: where a write or a move lands once its parent has been resolved.
pub proof fn law_join_stays_inside(s: Sandbox, d: Seq<char>, n: Seq<char>)
    requires
        s.contains_spec(d),
        n.len() > 0,
        lacks(n, '/'),
        is_normal(n),
    ensures
        s.contains_spec(join_spec(d, n)),
{
    law_join_adds_one_component(d, n);
    let a = components(join_spec(d, n));
    let b = components(d);
    assert(a.take(b.len() as int) =~= b);
    law_inside_is_downward_closed(s, join_spec(d, n), d);
}

/// The file a write or a move targets (the destination's file name joined to
/// its resolved parent) lies in the sandbox whenever that parent does.
pub proof fn law_write_target_inside(s: Sandbox, destination: Seq<char>, resolved_parent: Seq<char>)
    requires
        file_name_spec(destination) is Some,
        s.contains_spec(resolved_parent),
    ensures
        s.contains_spec(join_spec(resolved_parent, file_name_spec(destination).unwrap())),
{
    law_file_names_are_plain(destination);
    law_join_stays_inside(s, resolved_parent, file_name_spec(destination).unwrap());
}

/// The number of reads that succeeded.
pub open spec fn count_successes(results: Seq<Option<String>>) -> nat
    decreases results.len(),
{
    if results.len() == 0 {
        0
    } else {
        count_successes(results.drop_last()) + if results.last() is Some {
            1nat
        } else {
            0nat
        }
    }
}

/// Collecting reads keeps every successful read, whatever its contents (an
/// empty file included), in order: one result per success, a further success
/// adds its contents at the end, and a further failure adds nothing.
pub proof fn law_successes_keep_every_read(results: Seq<Option<String>>, s: String)
    ensures
        successes(Seq::<Option<String>>::empty()) == Seq::<Seq<char>>::empty(),
        successes(results).len() == count_successes(results),
        successes(results.push(Some(s))) == successes(results).push(s@),
        successes(results.push(None)) == successes(results),
    decreases results.len(),
{
    if results.len() > 0 {
        law_successes_keep_every_read(results.drop_last(), s);
    }
    assert(results.push(Some(s)).drop_last() =~= results);
    assert(results.push(None::<String>).drop_last() =~= results);
}

/// The number that a text of octal digits writes.
pub open spec fn octal_value(s: Seq<char>) -> nat
    decreases s.len(),
{
    if s.len() == 0 {
        0
    } else {
        octal_value(s.drop_last()) * 8 + ((s.last() as nat) - ('0' as nat)) as nat
    }
}

proof fn lemma_octal_digit(d: nat)
    requires
        d < 8,
    ensures
        (octal_digit(d) as nat) == ('0' as nat) + d,
        '0' <= octal_digit(d) <= '7',
{
    assert(('0' as nat) == 48);
    assert(((48 + d) as char) as nat == 48 + d) by {
        if d == 0 { assert((48nat as char) == '0'); }
        else if d == 1 { assert((49nat as char) == '1'); }
        else if d == 2 { assert((50nat as char) == '2'); }
        else if d == 3 { assert((51nat as char) == '3'); }
        else if d == 4 { assert((52nat as char) == '4'); }
        else if d == 5 { assert((53nat as char) == '5'); }
        else if d == 6 { assert((54nat as char) == '6'); }
        else { assert((55nat as char) == '7'); }
    }
}

/// The permission digits are the octal numeral of the number: every character
/// is an octal digit, read back they give the number, and there is no leading
/// zero (`0` alone for zero).
pub proof fn law_octal_digits_read_back(n: nat)
    ensures
        forall|i: int| 0 <= i < octal_digits(n).len() ==> '0' <= #[trigger] octal_digits(n)[i] <= '7',
        octal_value(octal_digits(n)) == n,
        octal_digits(n).len() >= 1,
        octal_digits(n).len() > 1 ==> octal_digits(n)[0] != '0',
    decreases n,
{
    lemma_octal_digit(n % 8);
    if n < 8 {
        let s = seq![octal_digit(n)];
        assert(n % 8 == n);
        assert(s.drop_last() =~= Seq::<char>::empty());
        assert(octal_value(Seq::<char>::empty()) == 0);
        assert(s.last() == octal_digit(n));
        assert(octal_value(s) == n);
    } else {
        law_octal_digits_read_back(n / 8);
        let init = octal_digits(n / 8);
        let s = init.push(octal_digit(n % 8));
        assert(s.drop_last() =~= init);
        assert(s.last() == octal_digit(n % 8));
        assert(octal_value(s) == (n / 8) * 8 + n % 8);
        assert forall|i: int| 0 <= i < s.len() implies '0' <= #[trigger] s[i] <= '7' by {
            if i < init.len() {
                assert(s[i] == init[i]);
            }
        }
        if init.len() == 1 {
            assert(n / 8 >= 1);
            assert(s[0] == init[0]);
            assert(init[0] != '0') by {
                assert(n / 8 < 8) by {
                    if n / 8 >= 8 {
                        law_octal_digits_read_back(n / 8 / 8);
                        assert(octal_digits(n / 8) == octal_digits(n / 8 / 8).push(octal_digit(n / 8 % 8)));
                    }
                }
                lemma_octal_digit(n / 8);
            }
        } else {
            assert(s[0] == init[0]);
        }
    }
}

} // verus!
