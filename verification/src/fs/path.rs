//! Unix path logic, following `std::path::Path`: components, parent,
//! file name, ancestors, joining and component-wise prefixes.
//!
//! Components are character sequences: `/` stands for the root, `.` for a
//! leading current-directory marker, `..` for a parent step, and anything else
//! is a normal name (which never holds a `/`).

use vstd::prelude::*;
use crate::text::{chars_eq, chars_of, extend_chars, lemma_split_on_nonempty, seqs_of, split_chars, split_on, string_of};

verus! {

pub open spec fn root_comp() -> Seq<char> {
    seq!['/']
}

pub open spec fn cur_comp() -> Seq<char> {
    seq!['.']
}

pub open spec fn parent_comp() -> Seq<char> {
    seq!['.', '.']
}

/// A `/`-separated segment that names no component (empty, or `.`).
pub open spec fn is_skipped_segment(seg: Seq<char>) -> bool {
    seg.len() == 0 || seg == cur_comp()
}

/// The segments that name components, in order.
pub open spec fn body_components(segs: Seq<Seq<char>>) -> Seq<Seq<char>>
    decreases segs.len(),
{
    if segs.len() == 0 {
        Seq::empty()
    } else {
        let init = body_components(segs.drop_last());
        if is_skipped_segment(segs.last()) {
            init
        } else {
            init.push(segs.last())
        }
    }
}

/// Whether the path starts at the root.
pub open spec fn is_rooted(p: Seq<char>) -> bool {
    p.len() > 0 && p[0] == '/'
}

/// Whether a relative path starts with the current-directory marker (`.` or `./…`).
pub open spec fn has_leading_cur_dir(p: Seq<char>) -> bool {
    !is_rooted(p) && split_on(p, '/')[0] == cur_comp()
}

/// The components of `p`, as `Path::components` yields them.
pub open spec fn components(p: Seq<char>) -> Seq<Seq<char>> {
    (if is_rooted(p) { seq![root_comp()] } else { Seq::empty() }) + (if has_leading_cur_dir(p) {
        seq![cur_comp()]
    } else {
        Seq::empty()
    }) + body_components(split_on(p, '/'))
}

/// A component that is a plain name.
pub open spec fn is_normal(c: Seq<char>) -> bool {
    c != root_comp() && c != cur_comp() && c != parent_comp()
}

/// `Path::file_name`: the last component when it is a plain name.
pub open spec fn file_name_spec(p: Seq<char>) -> Option<Seq<char>> {
    let cs = components(p);
    if cs.len() > 0 && is_normal(cs.last()) {
        Some(cs.last())
    } else {
        None
    }
}

/// Where the components after the root or the leading `.` begin: past a
/// leading `/`, or past a leading `.` that stands alone or before a `/`.
pub open spec fn body_start(p: Seq<char>) -> nat {
    if is_rooted(p) || (p.len() > 0 && p[0] == '.' && (p.len() == 1 || p[1] == '/')) {
        1
    } else {
        0
    }
}

/// The index of the last `/` of `q` at or after `b`, or -1 when there is none.
pub open spec fn last_sep(q: Seq<char>, b: nat) -> int
    decreases q.len(),
{
    if q.len() <= b {
        -1
    } else if q.last() == '/' {
        q.len() - 1
    } else {
        last_sep(q.drop_last(), b)
    }
}

/// Where the last segment of `q` (after `b`) begins.
pub open spec fn seg_start(q: Seq<char>, b: nat) -> int {
    if last_sep(q, b) >= 0 {
        last_sep(q, b) + 1
    } else {
        b as int
    }
}

/// Where `q` is cut when its last segment is removed with its separator.
pub open spec fn seg_cut(q: Seq<char>, b: nat) -> int {
    if last_sep(q, b) >= 0 {
        last_sep(q, b)
    } else {
        b as int
    }
}

pub proof fn lemma_last_sep_bounds(q: Seq<char>, b: nat)
    ensures
        -1 <= last_sep(q, b) < q.len(),
        last_sep(q, b) >= 0 ==> b <= last_sep(q, b) && q[last_sep(q, b)] == '/',
        forall|i: int| last_sep(q, b) < i < q.len() && b <= i ==> q[i] != '/',
    decreases q.len(),
{
    if q.len() > b && q.last() != '/' {
        let d = q.drop_last();
        lemma_last_sep_bounds(d, b);
        assert forall|i: int| last_sep(q, b) < i < q.len() && b <= i implies q[i] != '/' by {
            if i < q.len() - 1 {
                assert(q[i] == d[i]);
            }
        }
    }
}

/// Trimming keeps a prefix of `q`, at least `b` long when `q` is, and a
/// trimmed text longer than `b` ends with a segment that names a component.
pub proof fn lemma_trim_tail_prefix(q: Seq<char>, b: nat)
    ensures
        trim_tail(q, b).len() <= q.len(),
        trim_tail(q, b) == q.take(trim_tail(q, b).len() as int),
        q.len() >= b ==> trim_tail(q, b).len() >= b,
        trim_tail(q, b).len() > b ==> !is_skipped_segment(
            trim_tail(q, b).subrange(seg_start(trim_tail(q, b), b), trim_tail(q, b).len() as int),
        ),
    decreases q.len(),
{
    if q.len() <= b {
        assert(q.take(q.len() as int) =~= q);
    } else {
        lemma_last_sep_bounds(q, b);
        if is_skipped_segment(q.subrange(seg_start(q, b), q.len() as int)) {
            let x = q.take(seg_cut(q, b));
            lemma_trim_tail_prefix(x, b);
            let t = trim_tail(x, b);
            assert(x.take(t.len() as int) =~= q.take(t.len() as int));
        } else {
            assert(q.take(q.len() as int) =~= q);
        }
    }
}

/// A parent is shorter than its path.
pub proof fn lemma_parent_shorter(p: Seq<char>)
    ensures
        parent_spec(p) matches Some(r) ==> r.len() < p.len(),
{
    let b = body_start(p);
    lemma_trim_tail_prefix(p, b);
    let q = trim_tail(p, b);
    if q.len() > b {
        lemma_last_sep_bounds(q, b);
        lemma_trim_tail_prefix(q.take(seg_cut(q, b)), b);
    }
}

/// `q` without its trailing empty and `.` segments (never cutting into the
/// first `b` characters), as `Components::as_path` trims the back.
pub open spec fn trim_tail(q: Seq<char>, b: nat) -> Seq<char>
    decreases q.len(),
{
    if q.len() <= b {
        q
    } else {
        proof {
            lemma_last_sep_bounds(q, b);
        }
        if is_skipped_segment(q.subrange(seg_start(q, b), q.len() as int)) {
            trim_tail(q.take(seg_cut(q, b)), b)
        } else {
            q
        }
    }
}

/// `Path::parent`: the text of the path without its last component, unless
/// that is the root or there is none. The text is sliced from `p`, as std
/// slices it: separators inside are kept, and only trailing separators and
/// `.` segments are trimmed.
pub open spec fn parent_spec(p: Seq<char>) -> Option<Seq<char>> {
    let b = body_start(p);
    let q = trim_tail(p, b);
    if q.len() > b {
        Some(trim_tail(q.take(seg_cut(q, b)), b))
    } else if !is_rooted(p) && b == 1 {
        Some(Seq::empty())
    } else {
        None
    }
}

/// `Path::ancestors`: the path itself, then the ancestors of its parent.
pub open spec fn ancestors_spec(p: Seq<char>) -> Seq<Seq<char>>
    decreases p.len(),
{
    proof {
        lemma_parent_shorter(p);
    }
    match parent_spec(p) {
        Some(r) => seq![p] + ancestors_spec(r),
        None => seq![p],
    }
}

/// `Path::starts_with`: the components of `base` are a prefix of those of `p`.
pub open spec fn path_starts_with(p: Seq<char>, base: Seq<char>) -> bool {
    let a = components(p);
    let b = components(base);
    b.len() <= a.len() && a.take(b.len() as int) == b
}

/// `PathBuf::push` of a relative name: a `/` goes between unless `dir` is empty
/// or already ends with one.
pub open spec fn join_spec(dir: Seq<char>, name: Seq<char>) -> Seq<char> {
    if dir.len() == 0 || dir.last() == '/' {
        dir + name
    } else {
        dir + seq!['/'] + name
    }
}

fn is_skipped_segment_exec(seg: &[char]) -> (r: bool)
    ensures
        r == is_skipped_segment(seg@),
{
    let dot = ['.'];
    assert(dot@ == cur_comp());
    seg.len() == 0 || chars_eq(seg, &dot)
}

/// The components of `p`.
pub fn components_of(p: &[char]) -> (cs: Vec<Vec<char>>)
    ensures
        seqs_of(cs@) == components(p@),
{
    let segs = split_chars(p, '/');
    proof {
        lemma_split_on_nonempty(p@, '/');
    }
    let mut cs: Vec<Vec<char>> = Vec::new();
    let rooted = p.len() > 0 && p[0] == '/';
    if rooted {
        let mut r = Vec::new();
        r.push('/');
        assert(r@ == root_comp());
        cs.push(r);
    }
    let dot = ['.'];
    assert(dot@ == cur_comp());
    assert(segs@[0]@ == split_on(p@, '/')[0]);
    let lead_cur = !rooted && chars_eq(segs[0].as_slice(), &dot);
    if lead_cur {
        let mut c = Vec::new();
        c.push('.');
        assert(c@ == cur_comp());
        cs.push(c);
    }
    let ghost prefix = seqs_of(cs@);
    assert(prefix == (if is_rooted(p@) { seq![root_comp()] } else { Seq::empty() }) + (
    if has_leading_cur_dir(p@) {
        seq![cur_comp()]
    } else {
        Seq::empty()
    }));
    let ghost all_segs = split_on(p@, '/');
    for i in 0..segs.len()
        invariant
            seqs_of(segs@) == all_segs,
            seqs_of(cs@) == prefix + body_components(all_segs.take(i as int)),
    {
        assert(all_segs.take(i + 1).drop_last() == all_segs.take(i as int));
        assert(segs@[i as int]@ == all_segs[i as int]);
        if !is_skipped_segment_exec(segs[i].as_slice()) {
            let ghost before = seqs_of(cs@);
            let seg = segs[i].clone();
            cs.push(seg);
            assert(seqs_of(cs@) =~= before.push(all_segs[i as int]));
        }
    }
    assert(all_segs.take(segs.len() as int) == all_segs);
    cs
}

/// The last component of `path`, when it is a plain name (`Path::file_name`).
pub fn file_name(path: &str) -> (r: Option<String>)
    ensures
        match r {
            Some(s) => file_name_spec(path@) == Some(s@),
            None => file_name_spec(path@) is None,
        },
{
    let p = chars_of(path);
    let cs = components_of(p.as_slice());
    let n = cs.len();
    if n == 0 {
        return None;
    }
    assert(cs@[n - 1]@ == seqs_of(cs@).last());
    let last = cs[n - 1].as_slice();
    let root = ['/'];
    let dot = ['.'];
    let dotdot = ['.', '.'];
    assert(root@ == root_comp() && dot@ == cur_comp() && dotdot@ == parent_comp());
    if chars_eq(last, &root) || chars_eq(last, &dot) || chars_eq(last, &dotdot) {
        None
    } else {
        Some(string_of(last))
    }
}

/// The index of the last `/` of `q[..n]` at or after `b`.
fn last_sep_exec(q: &[char], n: usize, b: usize) -> (r: Option<usize>)
    requires
        n <= q.len(),
    ensures
        match r {
            Some(k) => last_sep(q@.take(n as int), b as nat) == k,
            None => last_sep(q@.take(n as int), b as nat) == -1,
        },
{
    let mut i = n;
    while i > b
        invariant
            i <= n <= q.len(),
            last_sep(q@.take(n as int), b as nat) == last_sep(q@.take(i as int), b as nat),
        decreases i,
    {
        assert(q@.take(i as int).last() == q@[i - 1]);
        if q[i - 1] == '/' {
            return Some(i - 1);
        }
        assert(q@.take(i as int).drop_last() =~= q@.take(i - 1));
        i = i - 1;
    }
    None
}

/// The length of `trim_tail(q[..n], b)`.
fn trim_tail_exec(q: &[char], n: usize, b: usize) -> (m: usize)
    requires
        n <= q.len(),
        b <= 1,
    ensures
        m <= n,
        q@.take(m as int) == trim_tail(q@.take(n as int), b as nat),
{
    let mut cur = n;
    let mut done = false;
    while cur > b && !done
        invariant
            cur <= n <= q.len(),
            trim_tail(q@.take(n as int), b as nat) == trim_tail(q@.take(cur as int), b as nat),
            done ==> trim_tail(q@.take(cur as int), b as nat) == q@.take(cur as int),
        decreases cur + if done { 0int } else { 1int },
    {
        let ghost t = q@.take(cur as int);
        proof {
            lemma_last_sep_bounds(t, b as nat);
        }
        let (start, cut) = match last_sep_exec(q, cur, b) {
            Some(k) => (k + 1, k),
            None => (b, b),
        };
        assert(t.subrange(seg_start(t, b as nat), t.len() as int) =~= q@.subrange(start as int, cur as int));
        let dot = ['.'];
        assert(dot@ == cur_comp());
        let skipped = start == cur || (cur - start == 1 && q[start] == '.');
        assert(skipped == is_skipped_segment(q@.subrange(start as int, cur as int))) by {
            if cur - start == 1 {
                assert(q@.subrange(start as int, cur as int) =~= seq![q@[start as int]]);
            }
        }
        if skipped {
            assert(t.take(cut as int) =~= q@.take(cut as int));
            cur = cut;
        } else {
            done = true;
        }
    }
    assert(cur <= b ==> trim_tail(q@.take(cur as int), b as nat) == q@.take(cur as int));
    cur
}

/// `path` without its last component (`Path::parent`), sliced from its text.
pub fn parent(path: &str) -> (r: Option<String>)
    ensures
        match r {
            Some(s) => parent_spec(path@) == Some(s@),
            None => parent_spec(path@) is None,
        },
{
    let p = chars_of(path);
    let n = p.len();
    let rooted = n > 0 && p[0] == '/';
    let b: usize = if rooted || (n > 0 && p[0] == '.' && (n == 1 || p[1] == '/')) { 1 } else { 0 };
    assert(b == body_start(path@));
    assert(p@.take(n as int) =~= p@);
    let m = trim_tail_exec(p.as_slice(), n, b);
    let ghost q = p@.take(m as int);
    if m > b {
        proof {
            lemma_last_sep_bounds(q, b as nat);
        }
        let cut = match last_sep_exec(p.as_slice(), m, b) {
            Some(k) => k,
            None => b,
        };
        assert(q.take(cut as int) =~= p@.take(cut as int));
        let m2 = trim_tail_exec(p.as_slice(), cut, b);
        let text = vstd::slice::slice_subrange(p.as_slice(), 0, m2);
        assert(text@ =~= p@.take(m2 as int));
        Some(string_of(text))
    } else if !rooted && b == 1 {
        Some(String::new())
    } else {
        None
    }
}

/// `path` followed by each of its ancestors (`Path::ancestors`).
pub fn ancestors(path: &str) -> (r: Vec<String>)
    ensures
        r@.map_values(|s: String| s@) == ancestors_spec(path@),
{
    let mut out: Vec<String> = Vec::new();
    let mut cur = path.to_owned();
    out.push(cur.clone());
    let mut done = false;
    while !done
        invariant
            out.len() > 0,
            out@.last()@ == cur@,
            done ==> ancestors_spec(cur@) == seq![cur@],
            out@.map_values(|s: String| s@).drop_last() + ancestors_spec(cur@) == ancestors_spec(path@),
        decreases cur@.len() + if done { 0int } else { 1int },
    {
        proof {
            lemma_parent_shorter(cur@);
        }
        match parent(cur.as_str()) {
            Some(r) => {
                let ghost before = out@.map_values(|s: String| s@);
                let ghost c = cur@;
                out.push(r.clone());
                assert(out@.map_values(|s: String| s@).drop_last() =~= before);
                assert(before =~= before.drop_last() + seq![c]);
                assert(ancestors_spec(c) == seq![c] + ancestors_spec(r@));
                cur = r;
            },
            None => {
                done = true;
            },
        }
    }
    assert(out@.map_values(|s: String| s@) =~= out@.map_values(|s: String| s@).drop_last() + seq![cur@]);
    out
}

/// Whether the components of `base` are a prefix of those of `path`
/// (`Path::starts_with`).
pub fn starts_with(path: &str, base: &str) -> (r: bool)
    ensures
        r == path_starts_with(path@, base@),
{
    let pa = chars_of(path);
    let pb = chars_of(base);
    let a = components_of(pa.as_slice());
    let b = components_of(pb.as_slice());
    if b.len() > a.len() {
        return false;
    }
    let ghost sa = seqs_of(a@);
    let ghost sb = seqs_of(b@);
    for i in 0..b.len()
        invariant
            b.len() <= a.len(),
            sa == seqs_of(a@),
            sb == seqs_of(b@),
            sa == components(path@),
            sb == components(base@),
            forall|j: int| 0 <= j < i ==> sa[j] == sb[j],
    {
        assert(a@[i as int]@ == sa[i as int] && b@[i as int]@ == sb[i as int]);
        if !chars_eq(a[i].as_slice(), b[i].as_slice()) {
            assert(sa.take(sb.len() as int)[i as int] != sb[i as int]);
            assert(sa.take(sb.len() as int) != sb);
            return false;
        }
    }
    assert(sa.take(sb.len() as int) =~= sb);
    true
}

/// `dir` joined with the relative name `name` (`Path::join`).
pub fn join(dir: &str, name: &str) -> (r: String)
    ensures
        r@ == join_spec(dir@, name@),
{
    let mut out = chars_of(dir);
    let n = out.len();
    if n > 0 && out[n - 1] != '/' {
        out.push('/');
    }
    let nm = chars_of(name);
    extend_chars(&mut out, nm.as_slice());
    string_of(out.as_slice())
}

} // verus!
