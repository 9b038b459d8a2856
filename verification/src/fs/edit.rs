//! File edits: literal search-and-replace edits applied in order, and the
//! line diff that reports them.

use vstd::prelude::*;
use crate::text::{chars_of, contains_chars, contains_seq, extend_chars, occurs_at_exec, string_of};

verus! {

/// One edit: every occurrence of `old` becomes `new`.
pub struct Edit {
    pub old: String,
    pub new: String,
}

/// The outcome of an edit request: the rendered diff and whether the new
/// content was written.
pub struct EditResult {
    pub diff: String,
    pub applied: bool,
}

/// `str::replace`: the non-overlapping occurrences of `pat`, found from the
/// left, each replaced by `rep`. An empty `pat` occurs before every character
/// and at the end.
pub open spec fn replace_all(s: Seq<char>, pat: Seq<char>, rep: Seq<char>) -> Seq<char>
    decreases s.len(),
{
    if pat.len() == 0 {
        if s.len() == 0 {
            rep
        } else {
            rep + seq![s[0]] + replace_all(s.drop_first(), pat, rep)
        }
    } else if s.len() < pat.len() {
        s
    } else if s.take(pat.len() as int) == pat {
        rep + replace_all(s.skip(pat.len() as int), pat, rep)
    } else {
        seq![s[0]] + replace_all(s.drop_first(), pat, rep)
    }
}

/// Every occurrence of `pat` in `s` replaced by `rep`.
pub fn replace_chars(s: &[char], pat: &[char], rep: &[char]) -> (r: Vec<char>)
    ensures
        r@ == replace_all(s@, pat@, rep@),
{
    let mut out: Vec<char> = Vec::new();
    let mut i: usize = 0;
    assert(s@.skip(0) == s@);
    while i < s.len()
        invariant
            i <= s.len(),
            replace_all(s@, pat@, rep@) == out@ + replace_all(s@.skip(i as int), pat@, rep@),
        decreases s.len() - i,
    {
        let ghost rest = s@.skip(i as int);
        if pat.len() == 0 {
            let ghost o = out@;
            extend_chars(&mut out, rep);
            out.push(s[i]);
            assert(rest.drop_first() == s@.skip(i + 1));
            assert(rest[0] == s@[i as int]);
            assert(o + replace_all(rest, pat@, rep@) =~= out@ + replace_all(s@.skip(i + 1), pat@, rep@));
            i = i + 1;
        } else if occurs_at_exec(s, pat, i) {
            extend_chars(&mut out, rep);
            assert(rest.take(pat.len() as int) == s@.subrange(i as int, i + pat.len()));
            assert(rest.skip(pat.len() as int) == s@.skip(i + pat.len()));
            i = i + pat.len();
        } else {
            if s.len() - i >= pat.len() {
                assert(rest.take(pat.len() as int) == s@.subrange(i as int, i + pat.len()));
            }
            out.push(s[i]);
            assert(rest.drop_first() == s@.skip(i + 1));
            i = i + 1;
        }
    }
    if pat.len() == 0 {
        extend_chars(&mut out, rep);
    }
    assert(s@.skip(s.len() as int).len() == 0);
    out
}

pub open spec fn edit_view(e: Edit) -> (Seq<char>, Seq<char>) {
    (e.old@, e.new@)
}

/// The edits applied in order; an edit whose `old` text does not occur in the
/// content at its turn is skipped.
pub open spec fn apply_edits_spec(content: Seq<char>, edits: Seq<(Seq<char>, Seq<char>)>) -> Seq<char>
    decreases edits.len(),
{
    if edits.len() == 0 {
        content
    } else {
        let c = apply_edits_spec(content, edits.drop_last());
        let (old, new) = edits.last();
        if contains_seq(c, old) {
            replace_all(c, old, new)
        } else {
            c
        }
    }
}

/// Applies the edits to `content` in order, skipping those whose text is absent.
pub fn apply_edits(content: String, edits: Vec<Edit>) -> (r: String)
    ensures
        r@ == apply_edits_spec(content@, edits@.map_values(|e: Edit| edit_view(e))),
{
    let mut cur = chars_of(content.as_str());
    let ghost es = edits@.map_values(|e: Edit| edit_view(e));
    for k in 0..edits.len()
        invariant
            es == edits@.map_values(|e: Edit| edit_view(e)),
            cur@ == apply_edits_spec(content@, es.take(k as int)),
    {
        assert(es.take(k + 1).drop_last() == es.take(k as int));
        assert(es.take(k + 1).last() == (edits@[k as int].old@, edits@[k as int].new@));
        let old = chars_of(edits[k].old.as_str());
        let new = chars_of(edits[k].new.as_str());
        if contains_chars(cur.as_slice(), old.as_slice()) {
            cur = replace_chars(cur.as_slice(), old.as_slice(), new.as_slice());
        }
    }
    assert(es.take(edits.len() as int) == es);
    string_of(cur.as_slice())
}

/// The kind of one line of a line diff.
#[derive(Clone, Copy, PartialEq, Eq, Structural)]
pub enum ChangeKind {
    Delete,
    Insert,
    Equal,
}

/// The line diff of `old` into `new` as `similar::TextDiff::from_lines` computes
/// it: each change's kind and line text (with its line ending, if any), in order.
pub uninterp spec fn line_diff(old: Seq<char>, new: Seq<char>) -> Seq<(ChangeKind, Seq<char>)>;

/// The changes of a list as plain values: each tag with its line text.
pub open spec fn changes_view(r: Seq<(ChangeKind, String)>) -> Seq<(ChangeKind, Seq<char>)> {
    r.map_values(|c: (ChangeKind, String)| (c.0, c.1@))
}

/// Whether a change of kind `k` belongs to the side of the diff that `side`
/// names: `Delete` for the old text, `Insert` for the new one. Unchanged lines
/// belong to both.
pub open spec fn on_side(k: ChangeKind, side: ChangeKind) -> bool {
    k == ChangeKind::Equal || k == side
}

/// The text of one side of a line diff: the line texts of the changes on that
/// side, joined in order.
pub open spec fn side_text(d: Seq<(ChangeKind, Seq<char>)>, side: ChangeKind) -> Seq<char>
    decreases d.len(),
{
    if d.len() == 0 {
        Seq::empty()
    } else {
        side_text(d.drop_last(), side) + if on_side(d.last().0, side) {
            d.last().1
        } else {
            Seq::<char>::empty()
        }
    }
}

/// The shape of the lines of a line diff: no line text is empty, and on each
/// side every line but the last one of that side ends with a line break.
pub open spec fn lines_well_formed(d: Seq<(ChangeKind, Seq<char>)>) -> bool {
    &&& forall|j: int| 0 <= j < d.len() ==> (#[trigger] d[j]).1.len() > 0
    &&& forall|j: int, k: int, side: ChangeKind|
        #![trigger on_side(d[j].0, side), on_side(d[k].0, side)]
        0 <= j < k < d.len() && side != ChangeKind::Equal && on_side(d[j].0, side) && on_side(
            d[k].0,
            side,
        ) ==> ends_with_newline(d[j].1)
}

/// Computes the line diff with `similar::TextDiff::from_lines` and lists its
/// changes (`iter_all_changes`), each with its tag and its value.
/// Trusted: the list is `line_diff(old, new)`; it is a diff of the two texts
/// (the deleted and unchanged lines, in order, make up `old`, and the inserted
/// and unchanged lines make up `new`); and its lines have the shape of
/// `str` line tokens (none empty, each but the last of its text ending with
/// `\n` or `\r`).
#[verifier::external_body]
fn line_changes(old: &str, new: &str) -> (r: Vec<(ChangeKind, String)>)
    ensures
        changes_view(r@) == line_diff(old@, new@),
        side_text(changes_view(r@), ChangeKind::Delete) == old@,
        side_text(changes_view(r@), ChangeKind::Insert) == new@,
        lines_well_formed(changes_view(r@)),
{
    let diff = similar::TextDiff::from_lines(old, new);
    let mut out = Vec::new();
    for change in diff.iter_all_changes() {
        let kind = match change.tag() {
            similar::ChangeTag::Delete => ChangeKind::Delete,
            similar::ChangeTag::Insert => ChangeKind::Insert,
            similar::ChangeTag::Equal => ChangeKind::Equal,
        };
        out.push((kind, change.value().to_string()));
    }
    out
}

pub open spec fn sign_of(k: ChangeKind) -> char {
    match k {
        ChangeKind::Delete => '-',
        ChangeKind::Insert => '+',
        ChangeKind::Equal => ' ',
    }
}

/// A line ends with a line break when its last character is `\r` or `\n`.
pub open spec fn ends_with_newline(line: Seq<char>) -> bool {
    line.len() > 0 && (line.last() == '\n' || line.last() == '\r')
}

/// One diff line as printed: its sign, its text, and a `\n` when the text has no
/// line break of its own.
pub open spec fn render_change(c: (ChangeKind, Seq<char>)) -> Seq<char> {
    seq![sign_of(c.0)] + c.1 + if ends_with_newline(c.1) { Seq::empty() } else { seq!['\n'] }
}

/// One side of a printed diff read back: the lines that start with a space or
/// with `sign`, each without that first character, joined in order.
pub open spec fn printed_side(lines: Seq<Seq<char>>, sign: char) -> Seq<char>
    decreases lines.len(),
{
    if lines.len() == 0 {
        Seq::empty()
    } else {
        let l = lines.last();
        printed_side(lines.drop_last(), sign) + if l.len() > 0 && (l[0] == ' ' || l[0] == sign) {
            l.drop_first()
        } else {
            Seq::<char>::empty()
        }
    }
}

/// Changes after position `m` that are not on `side` add nothing to its text.
proof fn lemma_side_text_prefix(d: Seq<(ChangeKind, Seq<char>)>, side: ChangeKind, m: int)
    requires
        0 <= m <= d.len(),
        forall|j: int| m <= j < d.len() ==> !on_side(#[trigger] d[j].0, side),
    ensures
        side_text(d, side) == side_text(d.take(m), side),
    decreases d.len(),
{
    if d.len() == m {
        assert(d.take(m) =~= d);
    } else {
        assert(!on_side(d[d.len() - 1].0, side));
        lemma_side_text_prefix(d.drop_last(), side, m);
        assert(d.drop_last().take(m) =~= d.take(m));
    }
}

/// When the text of a side is empty or ends with a line break, every line of
/// that side ends with a line break.
proof fn lemma_side_lines_end(d: Seq<(ChangeKind, Seq<char>)>, side: ChangeKind)
    requires
        lines_well_formed(d),
        side != ChangeKind::Equal,
        side_text(d, side).len() == 0 || ends_with_newline(side_text(d, side)),
    ensures
        forall|j: int| 0 <= j < d.len() && on_side(d[j].0, side) ==> ends_with_newline(#[trigger] d[j].1),
{
    assert forall|j: int| 0 <= j < d.len() && on_side(d[j].0, side) implies ends_with_newline(
        #[trigger] d[j].1,
    ) by {
        if exists|k: int| j < k < d.len() && on_side(#[trigger] d[k].0, side) {
            let k = choose|k: int| j < k < d.len() && on_side(#[trigger] d[k].0, side);
            assert(on_side(d[j].0, side) && on_side(d[k].0, side));
        } else {
            lemma_side_text_prefix(d, side, j + 1);
            let t = d.take(j + 1);
            assert(t.drop_last() =~= d.take(j));
            assert(t.last() == d[j]);
            assert(d[j].1.len() > 0);
            let x = side_text(d.take(j), side);
            assert(side_text(t, side) == x + d[j].1);
            assert((x + d[j].1).last() == d[j].1.last());
        }
    }
}

/// When every line of a side ends with a line break, reading that side back
/// from the printed lines gives its text.
proof fn lemma_printed_side(d: Seq<(ChangeKind, Seq<char>)>, side: ChangeKind)
    requires
        side != ChangeKind::Equal,
        forall|j: int| 0 <= j < d.len() && on_side(d[j].0, side) ==> ends_with_newline(#[trigger] d[j].1),
    ensures
        printed_side(d.map_values(|c: (ChangeKind, Seq<char>)| render_change(c)), sign_of(side))
            == side_text(d, side),
    decreases d.len(),
{
    let ls = d.map_values(|c: (ChangeKind, Seq<char>)| render_change(c));
    if d.len() > 0 {
        let dl = d.drop_last();
        assert forall|j: int| 0 <= j < dl.len() && on_side(dl[j].0, side) implies ends_with_newline(
            #[trigger] dl[j].1,
        ) by {
            assert(dl[j] == d[j]);
        }
        lemma_printed_side(dl, side);
        assert(ls.drop_last() =~= dl.map_values(|c: (ChangeKind, Seq<char>)| render_change(c)));
        let c = d.last();
        let l = render_change(c);
        assert(ls.last() == l);
        assert(l[0] == sign_of(c.0));
        if on_side(c.0, side) {
            assert(ends_with_newline(d[d.len() - 1].1));
            assert(l.drop_first() =~= c.1);
        }
    }
}

fn render_change_exec(kind: ChangeKind, line: &str) -> (r: String)
    ensures
        r@ == render_change((kind, line@)),
{
    let mut out: Vec<char> = Vec::new();
    let sign = match kind {
        ChangeKind::Delete => '-',
        ChangeKind::Insert => '+',
        ChangeKind::Equal => ' ',
    };
    out.push(sign);
    let l = chars_of(line);
    extend_chars(&mut out, l.as_slice());
    let n = l.len();
    if !(n > 0 && (l[n - 1] == '\n' || l[n - 1] == '\r')) {
        out.push('\n');
    }
    string_of(out.as_slice())
}

/// The diff of `old_content` into `new_content`, one printed line per change.
pub fn get_diffs(old_content: &str, new_content: &str) -> (r: Vec<String>)
    ensures
        r@.map_values(|s: String| s@) == line_diff(old_content@, new_content@).map_values(
            |c: (ChangeKind, Seq<char>)| render_change(c),
        ),
        forall|i: int|
            0 <= i < r.len() ==> (#[trigger] r@[i]@).len() > 0 && (r@[i]@[0] == '-' || r@[i]@[0]
                == '+' || r@[i]@[0] == ' '),
        old_content@.len() == 0 || ends_with_newline(old_content@) ==> printed_side(
            r@.map_values(|s: String| s@),
            '-',
        ) == old_content@,
        new_content@.len() == 0 || ends_with_newline(new_content@) ==> printed_side(
            r@.map_values(|s: String| s@),
            '+',
        ) == new_content@,
{
    let changes = line_changes(old_content, new_content);
    let ghost d = line_diff(old_content@, new_content@);
    let mut out: Vec<String> = Vec::new();
    for i in 0..changes.len()
        invariant
            changes_view(changes@) == d,
            out.len() == i,
            forall|j: int| 0 <= j < i ==> #[trigger] out@[j]@ == render_change(d[j]),
    {
        assert(d[i as int] == (changes@[i as int].0, changes@[i as int].1@));
        let line = render_change_exec(changes[i].0, changes[i].1.as_str());
        out.push(line);
    }
    assert(out@.map_values(|s: String| s@) =~= d.map_values(
        |c: (ChangeKind, Seq<char>)| render_change(c),
    ));
    assert forall|i: int| 0 <= i < out.len() implies (#[trigger] out@[i]@).len() > 0 && (
    out@[i]@[0] == '-' || out@[i]@[0] == '+' || out@[i]@[0] == ' ') by {
        assert(out@[i]@ == render_change(d[i]));
    }
    proof {
        if old_content@.len() == 0 || ends_with_newline(old_content@) {
            lemma_side_lines_end(d, ChangeKind::Delete);
            lemma_printed_side(d, ChangeKind::Delete);
        }
        if new_content@.len() == 0 || ends_with_newline(new_content@) {
            lemma_side_lines_end(d, ChangeKind::Insert);
            lemma_printed_side(d, ChangeKind::Insert);
        }
    }
    out
}

/// The concatenation of `parts`.
pub open spec fn concat_all(parts: Seq<Seq<char>>) -> Seq<char>
    decreases parts.len(),
{
    if parts.len() == 0 {
        Seq::empty()
    } else {
        concat_all(parts.drop_last()) + parts.last()
    }
}

/// The strings of `parts` joined with nothing between them.
pub fn concat_strings(parts: &Vec<String>) -> (r: String)
    ensures
        r@ == concat_all(parts@.map_values(|s: String| s@)),
{
    let ghost ps = parts@.map_values(|s: String| s@);
    let mut out: Vec<char> = Vec::new();
    for i in 0..parts.len()
        invariant
            ps == parts@.map_values(|s: String| s@),
            out@ == concat_all(ps.take(i as int)),
    {
        assert(ps.take(i + 1).drop_last() == ps.take(i as int));
        let c = chars_of(parts[i].as_str());
        extend_chars(&mut out, c.as_slice());
    }
    assert(ps.take(parts.len() as int) == ps);
    string_of(out.as_slice())
}

/// The new content of an edit request and its result: the edits applied to
/// `old_content`, the printed diff of the change, and whether it is to be written.
pub fn plan_edit(old_content: &str, edits: Vec<Edit>, dry_run: bool) -> (r: (String, EditResult))
    ensures
        r.0@ == apply_edits_spec(old_content@, edits@.map_values(|e: Edit| edit_view(e))),
        r.1.diff@ == concat_all(
            line_diff(old_content@, r.0@).map_values(|c: (ChangeKind, Seq<char>)| render_change(c)),
        ),
        old_content@.len() == 0 || ends_with_newline(old_content@) ==> printed_side(
            line_diff(old_content@, r.0@).map_values(|c: (ChangeKind, Seq<char>)| render_change(c)),
            '-',
        ) == old_content@,
        r.0@.len() == 0 || ends_with_newline(r.0@) ==> printed_side(
            line_diff(old_content@, r.0@).map_values(|c: (ChangeKind, Seq<char>)| render_change(c)),
            '+',
        ) == r.0@,
        r.1.applied == !dry_run,
{
    let new_content = apply_edits(old_content.to_owned(), edits);
    let lines = get_diffs(old_content, new_content.as_str());
    let diff = concat_strings(&lines);
    (new_content, EditResult { diff, applied: !dry_run })
}

} // verus!
