//! Lemmas on the line structure of a manifest text: how splitting at a
//! separator, joining lines, trimming and the version rewrite interact.

use vstd::prelude::*;
use crate::release::{
    bumped_line, first_occurrence, is_version_line, join_lines_spec, lemma_first_unique,
    lemma_split_nonempty, line_has_version, lines_spec, quoted, reassemble_spec,
    replace_first_spec, split_spec, version_in_lines,
};
use crate::text::{contains_seq, is_prefix_of, is_ws, occurs_at, lemma_trim_end_take, lemma_trim_start_skip, trim_end_seq, trim_seq, trim_start_seq};

verus! {

/// `c` does not occur in `s`.
pub open spec fn free_of(s: Seq<char>, c: char) -> bool {
    forall|k: int| 0 <= k < s.len() ==> s[k] != c
}

/// Appending text without a separator extends the last piece.
pub proof fn lemma_split_append_plain(s: Seq<char>, b: Seq<char>, sep: char)
    requires
        free_of(b, sep),
    ensures
        split_spec(s + b, sep) == split_spec(s, sep).update(
            split_spec(s, sep).len() - 1,
            split_spec(s, sep).last() + b,
        ),
    decreases b.len(),
{
    lemma_split_nonempty(s, sep);
    let p = split_spec(s, sep);
    if b.len() == 0 {
        assert(s + b =~= s);
        assert(p.last() + b =~= p.last());
        assert(p.update(p.len() - 1, p.last() + b) =~= p);
    } else {
        let b1 = b.drop_last();
        lemma_split_append_plain(s, b1, sep);
        assert((s + b).drop_last() =~= s + b1);
        assert((s + b).last() == b.last());
        assert((p.last() + b1).push(b.last()) =~= p.last() + b);
        let q = split_spec(s + b1, sep);
        assert(q =~= p.update(p.len() - 1, p.last() + b1));
        assert(q.update(q.len() - 1, q.last().push(b.last())) =~= p.update(
            p.len() - 1,
            p.last() + b,
        ));
    }
}

/// Text without a separator is one piece.
pub proof fn lemma_split_plain(b: Seq<char>, sep: char)
    requires
        free_of(b, sep),
    ensures
        split_spec(b, sep) == seq![b],
{
    lemma_split_append_plain(Seq::empty(), b, sep);
    assert(Seq::<char>::empty() + b =~= b);
    assert(split_spec(Seq::<char>::empty(), sep) == seq![Seq::<char>::empty()]);
    assert(Seq::<char>::empty() + b =~= b);
    assert(seq![Seq::<char>::empty()].update(0, Seq::<char>::empty() + b) =~= seq![b]);
}

/// A separator at the end adds an empty piece.
pub proof fn lemma_split_push_sep(s: Seq<char>, sep: char)
    ensures
        split_spec(s.push(sep), sep) == split_spec(s, sep).push(Seq::<char>::empty()),
{
    assert(s.push(sep).drop_last() =~= s);
}

/// Splitting at the first separator: the piece before it, then the pieces
/// of the rest.
pub proof fn lemma_split_first(a: Seq<char>, b: Seq<char>, sep: char)
    requires
        free_of(a, sep),
    ensures
        split_spec(a.push(sep) + b, sep) == seq![a] + split_spec(b, sep),
    decreases b.len(),
{
    lemma_split_nonempty(b, sep);
    if b.len() == 0 {
        assert(a.push(sep) + b =~= a.push(sep));
        lemma_split_push_sep(a, sep);
        lemma_split_plain(a, sep);
        assert(seq![a].push(Seq::<char>::empty()) =~= seq![a] + seq![Seq::<char>::empty()]);
    } else {
        let b1 = b.drop_last();
        let c = b.last();
        lemma_split_first(a, b1, sep);
        lemma_split_nonempty(b1, sep);
        let s = a.push(sep) + b;
        assert(s.drop_last() =~= a.push(sep) + b1);
        assert(s.last() == c);
        let q = split_spec(b1, sep);
        if c == sep {
            assert((seq![a] + q).push(Seq::<char>::empty()) =~= seq![a] + q.push(
                Seq::<char>::empty(),
            ));
        } else {
            let r = seq![a] + q;
            assert(r.update(r.len() - 1, r.last().push(c)) =~= seq![a] + q.update(
                q.len() - 1,
                q.last().push(c),
            ));
        }
    }
}

/// No piece holds the separator.
pub proof fn lemma_split_pieces_free(s: Seq<char>, sep: char)
    ensures
        forall|i: int|
            0 <= i < split_spec(s, sep).len() ==> free_of(#[trigger] split_spec(s, sep)[i], sep),
    decreases s.len(),
{
    if s.len() > 0 {
        lemma_split_pieces_free(s.drop_last(), sep);
        lemma_split_nonempty(s.drop_last(), sep);
        let p = split_spec(s.drop_last(), sep);
        if s.last() != sep {
            assert forall|i: int| 0 <= i < split_spec(s, sep).len() implies free_of(
                #[trigger] split_spec(s, sep)[i],
                sep,
            ) by {
                if i == p.len() - 1 {
                    assert(free_of(p[i], sep));
                    assert(split_spec(s, sep)[i] == p[i].push(s.last()));
                } else {
                    assert(split_spec(s, sep)[i] == p[i]);
                }
            }
        } else {
            assert forall|i: int| 0 <= i < split_spec(s, sep).len() implies free_of(
                #[trigger] split_spec(s, sep)[i],
                sep,
            ) by {
                if i < p.len() {
                    assert(split_spec(s, sep)[i] == p[i]);
                }
            }
        }
    }
}

/// The text joined from `list` ends with its last item.
pub proof fn lemma_join_ends_with_last(list: Seq<Seq<char>>, sep: Seq<char>)
    requires
        list.len() > 0,
    ensures
        exists|x: Seq<char>| join_lines_spec(list, sep) == x + list.last(),
{
    if list.len() == 1 {
        assert(join_lines_spec(list, sep) == Seq::<char>::empty() + list.last());
    } else {
        let x = join_lines_spec(list.drop_last(), sep) + sep;
        assert(join_lines_spec(list, sep) == x + list.last());
    }
}

/// Splitting joined lines at the separator gives the lines back.
pub proof fn lemma_split_join(list: Seq<Seq<char>>)
    requires
        list.len() > 0,
        forall|i: int| 0 <= i < list.len() ==> free_of(#[trigger] list[i], '\n'),
    ensures
        split_spec(join_lines_spec(list, "\n"@), '\n') == list,
    decreases list.len(),
{
    if list.len() == 1 {
        assert(free_of(list[0], '\n'));
        lemma_split_plain(list[0], '\n');
        assert(seq![list[0]] =~= list);
    } else {
        let init = list.drop_last();
        assert forall|i: int| 0 <= i < init.len() implies free_of(#[trigger] init[i], '\n') by {
            assert(init[i] == list[i]);
        }
        lemma_split_join(init);
        let j = join_lines_spec(init, "\n"@);
        assert(j + "\n"@ =~= j.push('\n')) by {
            reveal_strlit("\n");
        }
        let last = list.last();
        assert(free_of(last, '\n'));
        assert(join_lines_spec(list, "\n"@) == j.push('\n') + last);
        lemma_split_append_plain(j.push('\n'), last, '\n');
        lemma_split_push_sep(j, '\n');
        let p = init.push(Seq::<char>::empty());
        assert(Seq::<char>::empty() + last =~= last);
        assert(p.update(p.len() - 1, p.last() + last) =~= list);
    }
}

/// All of `s` is white space.
pub open spec fn all_ws(s: Seq<char>) -> bool {
    forall|k: int| 0 <= k < s.len() ==> is_ws(#[trigger] s[k])
}

/// Text that starts and ends with a character that is not white space.
pub open spec fn solid(m: Seq<char>) -> bool {
    m.len() == 0 || (!is_ws(m[0]) && !is_ws(m.last()))
}

/// Trimming text framed by white space gives the frame's content.
pub proof fn lemma_trim_frame(w1: Seq<char>, m: Seq<char>, w2: Seq<char>)
    requires
        all_ws(w1),
        all_ws(w2),
        solid(m),
    ensures
        trim_seq(w1 + m + w2) == m,
{
    let s = w1 + m + w2;
    assert forall|k: int| 0 <= k < w1.len() implies is_ws(s[k]) by {
        assert(s[k] == w1[k]);
    }
    lemma_trim_start_skip(s, w1.len() as int);
    let u = m + w2;
    assert(s.skip(w1.len() as int) =~= u);
    if m.len() > 0 {
        assert(u[0] == m[0]);
        assert(trim_start_seq(u) == u);
        assert forall|k: int| m.len() <= k < u.len() implies is_ws(u[k]) by {
            assert(u[k] == w2[k - m.len()]);
        }
        lemma_trim_end_take(u, m.len() as int);
        assert(u.take(m.len() as int) =~= m);
        assert(trim_end_seq(m) == m);
    } else {
        assert(u =~= w2);
        lemma_trim_start_skip(w2, w2.len() as int);
        assert(w2.skip(w2.len() as int) =~= Seq::<char>::empty());
        assert(trim_start_seq(Seq::<char>::empty()) == Seq::<char>::empty());
        assert(trim_end_seq(Seq::<char>::empty()) == Seq::<char>::empty());
        assert(m =~= Seq::<char>::empty());
    }
}

proof fn lemma_trim_start_index(s: Seq<char>) -> (k: int)
    ensures
        0 <= k <= s.len(),
        all_ws(s.take(k)),
        k == s.len() || !is_ws(s[k]),
        trim_start_seq(s) == s.skip(k),
    decreases s.len(),
{
    if s.len() > 0 && is_ws(s[0]) {
        let k1 = lemma_trim_start_index(s.drop_first());
        assert(s.drop_first().skip(k1) =~= s.skip(k1 + 1));
        assert forall|j: int| 0 <= j < k1 + 1 implies is_ws(#[trigger] s.take(k1 + 1)[j]) by {
            if j > 0 {
                assert(s.take(k1 + 1)[j] == s.drop_first().take(k1)[j - 1]);
            }
        }
        k1 + 1
    } else {
        assert(s.skip(0) =~= s);
        0
    }
}

proof fn lemma_trim_end_index(s: Seq<char>) -> (j: int)
    ensures
        0 <= j <= s.len(),
        all_ws(s.skip(j)),
        j == 0 || !is_ws(s[j - 1]),
        trim_end_seq(s) == s.take(j),
    decreases s.len(),
{
    if s.len() > 0 && is_ws(s.last()) {
        let j1 = lemma_trim_end_index(s.drop_last());
        assert(s.drop_last().take(j1) =~= s.take(j1));
        assert forall|i: int| 0 <= i < s.skip(j1).len() implies is_ws(#[trigger] s.skip(j1)[i]) by {
            if j1 + i < s.len() - 1 {
                assert(s.skip(j1)[i] == s.drop_last().skip(j1)[i]);
            }
        }
        j1
    } else {
        assert(s.take(s.len() as int) =~= s);
        s.len() as int
    }
}

/// Any text is its trimmed content framed by white space.
pub proof fn lemma_trim_decompose(s: Seq<char>) -> (k: int)
    ensures
        0 <= k <= k + trim_seq(s).len() <= s.len(),
        all_ws(s.take(k)),
        all_ws(s.skip(k + trim_seq(s).len())),
        solid(trim_seq(s)),
        s == s.take(k) + trim_seq(s) + s.skip(k + trim_seq(s).len()),
        s.subrange(k, k + trim_seq(s).len()) == trim_seq(s),
{
    let k = lemma_trim_start_index(s);
    let u = s.skip(k);
    let j = lemma_trim_end_index(u);
    let t = u.take(j);
    assert(trim_seq(s) == t);
    if t.len() > 0 {
        assert(t[0] == s[k]);
        assert(t.last() == u[j - 1]);
    }
    assert(u.skip(j) =~= s.skip(k + j));
    assert(s =~= s.take(k) + t + s.skip(k + j));
    assert(s.subrange(k, k + j) =~= t);
    k
}

/// Dropping a trailing white-space character does not change the trimmed text.
pub proof fn lemma_trim_drop_ws(x: Seq<char>)
    requires
        x.len() > 0,
        is_ws(x.last()),
    ensures
        trim_seq(x.drop_last()) == trim_seq(x),
{
    let t = trim_seq(x);
    let k = lemma_trim_decompose(x);
    let w1 = x.take(k);
    let w2 = x.skip(k + t.len());
    if w2.len() > 0 {
        assert(x.drop_last() =~= w1 + t + w2.drop_last());
        assert(all_ws(w2.drop_last())) by {
            assert forall|i: int| 0 <= i < w2.drop_last().len() implies is_ws(
                #[trigger] w2.drop_last()[i],
            ) by {
                assert(w2.drop_last()[i] == w2[i]);
            }
        }
        lemma_trim_frame(w1, t, w2.drop_last());
    } else {
        if t.len() > 0 {
            assert(x.last() == t.last());
        }
        assert(t.len() == 0);
        assert(x.drop_last() =~= x.drop_last() + Seq::<char>::empty() + Seq::<char>::empty());
        assert(all_ws(x.drop_last())) by {
            assert forall|i: int| 0 <= i < x.drop_last().len() implies is_ws(
                #[trigger] x.drop_last()[i],
            ) by {
                assert(x.drop_last()[i] == w1[i]);
            }
        }
        lemma_trim_frame(x.drop_last(), Seq::<char>::empty(), Seq::<char>::empty());
    }
}

/// The lines of text hold no line break; there is at least one line of a
/// non-empty text, and the last line is not empty when the text does not end
/// with a line break.
pub proof fn lemma_lines_shape(c: Seq<char>)
    requires
        c.len() > 0,
    ensures
        lines_spec(c).len() >= 1,
        forall|i: int| 0 <= i < lines_spec(c).len() ==> free_of(#[trigger] lines_spec(c)[i], '\n'),
        c.last() != '\n' ==> lines_spec(c).last().len() > 0,
{
    let parts = split_spec(c, '\n');
    lemma_split_pieces_free(c, '\n');
    lemma_split_nonempty(c, '\n');
    let l = lines_spec(c);
    if c.last() == '\n' {
        lemma_split_push_sep(c.drop_last(), '\n');
        assert(c.drop_last().push('\n') =~= c);
        lemma_split_nonempty(c.drop_last(), '\n');
    } else {
        lemma_split_nonempty(c.drop_last(), '\n');
        let p = split_spec(c.drop_last(), '\n');
        assert(parts.last() == p.last().push(c.last()));
    }
    assert forall|i: int| 0 <= i < l.len() implies free_of(#[trigger] l[i], '\n') by {
        let full = if c.last() == '\n' {
            parts.drop_last()
        } else {
            parts
        };
        assert(full[i] == parts[i]);
        assert(free_of(parts[i], '\n'));
        if i + 1 < parts.len() && full[i].len() > 0 && full[i].last() == '\r' {
            assert forall|k: int| 0 <= k < l[i].len() implies l[i][k] != '\n' by {
                assert(l[i][k] == full[i][k]);
            }
        }
    }
}

/// The lines of lines joined back (with a final line break when the
/// original text had one): the same lines, but for a `\r` at the end of a
/// line, which reading drops.
pub proof fn lemma_lines_reassembled(m: Seq<Seq<char>>, c: Seq<char>)
    requires
        c.len() > 0,
        m.len() > 0,
        forall|i: int| 0 <= i < m.len() ==> free_of(#[trigger] m[i], '\n'),
        c.last() != '\n' ==> m.last().len() > 0,
    ensures
        lines_spec(reassemble_spec(m, c)).len() == m.len(),
        forall|i: int|
            0 <= i < m.len() ==> {
                let r = #[trigger] lines_spec(reassemble_spec(m, c))[i];
                r == m[i] || (m[i].len() > 0 && m[i].last() == '\r' && r == m[i].drop_last())
            },
{
    let j = join_lines_spec(m, "\n"@);
    lemma_split_join(m);
    let r = reassemble_spec(m, c);
    if c.last() == '\n' {
        assert(r =~= j.push('\n')) by {
            reveal_strlit("\n");
        }
        lemma_split_push_sep(j, '\n');
        assert(r.len() > 0);
        assert(r.last() == '\n');
        let parts = split_spec(r, '\n');
        assert(parts == m.push(Seq::<char>::empty()));
        assert(parts.drop_last() =~= m);
    } else {
        assert(r == j);
        lemma_join_ends_with_last(m, "\n"@);
        let x = choose|x: Seq<char>| j == x + m.last();
        assert(j == x + m.last());
        assert(j.len() > 0);
        assert(j.last() == m.last().last());
        assert(free_of(m.last(), '\n'));
        assert(j.last() != '\n');
    }
}

/// The first position of `c` in `s`, given one position of it.
pub proof fn lemma_first_index(s: Seq<char>, c: char, k: int) -> (p: int)
    requires
        0 <= k < s.len(),
        s[k] == c,
    ensures
        0 <= p <= k,
        s[p] == c,
        free_of(s.take(p), c),
    decreases k,
{
    if s[0] == c {
        0
    } else {
        let p1 = lemma_first_index(s.drop_first(), c, k - 1);
        assert forall|j: int| 0 <= j < p1 + 1 implies #[trigger] s.take(p1 + 1)[j] != c by {
            if j > 0 {
                assert(s.take(p1 + 1)[j] == s.drop_first().take(p1)[j - 1]);
            }
        }
        p1 + 1
    }
}

/// Text that holds the separator splits into at least two pieces.
pub proof fn lemma_split_has_sep(s: Seq<char>, c: char, k: int)
    requires
        0 <= k < s.len(),
        s[k] == c,
    ensures
        split_spec(s, c).len() >= 2,
{
    let p = lemma_first_index(s, c, k);
    assert(s =~= s.take(p).push(c) + s.skip(p + 1));
    lemma_split_first(s.take(p), s.skip(p + 1), c);
    lemma_split_nonempty(s.skip(p + 1), c);
}

/// The version that `version_in_lines` reads is closed by a second `"`.
pub open spec fn version_closed(lines: Seq<Seq<char>>) -> bool
    decreases lines.len(),
{
    if lines.len() == 0 {
        false
    } else {
        let t = trim_seq(lines[0]);
        if is_version_line(lines[0]) && split_spec(t, '"').len() > 1 {
            split_spec(t, '"').len() > 2
        } else {
            version_closed(lines.drop_first())
        }
    }
}

/// A line that `version_in_lines` passes over is left alone by the bump.
pub proof fn lemma_bump_skipped_line(l: Seq<char>, current: Seq<char>, next: Seq<char>)
    requires
        !(is_version_line(l) && split_spec(trim_seq(l), '"').len() > 1),
    ensures
        bumped_line(l, current, next) == l,
{
    if is_version_line(l) && contains_seq(l, quoted(current)) {
        let i = choose|i: int| occurs_at(quoted(current), l, i);
        assert(l[i] == quoted(current)[0]);
        assert(l[i] == '"');
        let t = trim_seq(l);
        let k = lemma_trim_decompose(l);
        let w1 = l.take(k);
        if i < k {
            assert(l[i] == w1[i]);
            assert(is_ws(l[i]));
        } else if i < k + t.len() {
            assert(t[i - k] == l[i]);
            lemma_split_has_sep(t, '"', i - k);
        } else {
            assert(l[i] == l.skip(k + t.len())[i - k - t.len()]);
            assert(is_ws(l[i]));
        }
    }
}

/// The trimmed version line around its quoted version: the text before the
/// first `"`, the quoted version, and the rest.
proof fn lemma_quoted_version(t: Seq<char>, current: Seq<char>) -> (p: int)
    requires
        split_spec(t, '"').len() > 2,
        split_spec(t, '"')[1] == current,
    ensures
        0 <= p,
        p + current.len() + 2 <= t.len(),
        free_of(t.take(p), '"'),
        t == t.take(p) + quoted(current) + t.skip(p + current.len() + 2),
{
    let sp = split_spec(t, '"');
    if free_of(t, '"') {
        lemma_split_plain(t, '"');
    }
    let k0 = choose|k: int| 0 <= k < t.len() && t[k] == '"';
    let p = lemma_first_index(t, '"', k0);
    let u = t.skip(p + 1);
    assert(t =~= t.take(p).push('"') + u);
    lemma_split_first(t.take(p), u, '"');
    let su = split_spec(u, '"');
    assert(sp == seq![t.take(p)] + su);
    assert(su.len() > 1);
    assert(su[0] == current);
    if free_of(u, '"') {
        lemma_split_plain(u, '"');
    }
    let k1 = choose|k: int| 0 <= k < u.len() && u[k] == '"';
    let p2 = lemma_first_index(u, '"', k1);
    let u2 = u.skip(p2 + 1);
    assert(u =~= u.take(p2).push('"') + u2);
    lemma_split_first(u.take(p2), u2, '"');
    assert(su == seq![u.take(p2)] + split_spec(u2, '"'));
    assert(u.take(p2) == current);
    let cl = current.len() as int;
    assert(u2 =~= t.skip(p + cl + 2));
    assert(t =~= t.take(p) + quoted(current) + u2);
    p
}

/// Replacing the quoted version of a trimmed version line keeps its
/// `version =` start and brings in no `workspace`.
proof fn lemma_requoted_line(t: Seq<char>, p: int, current: Seq<char>, next: Seq<char>)
    requires
        0 <= p,
        p + current.len() + 2 <= t.len(),
        free_of(t.take(p), '"'),
        t == t.take(p) + quoted(current) + t.skip(p + current.len() + 2),
        is_prefix_of("version ="@, t),
        !contains_seq(t, "workspace"@),
        !contains_seq(next, "workspace"@),
    ensures
        ({
            let m = t.take(p) + quoted(next) + t.skip(p + current.len() + 2);
            is_prefix_of("version ="@, m) && !contains_seq(m, "workspace"@)
        }),
{
    reveal_strlit("version =");
    reveal_strlit("workspace");
    let cl = current.len() as int;
    let nl = next.len() as int;
    let u2 = t.skip(p + cl + 2);
    let m = t.take(p) + quoted(next) + u2;
    let vp = "version ="@;
    let ws = "workspace"@;
    assert(t[p] == '"') by {
        assert(t[p] == (t.take(p) + quoted(current) + u2)[p]);
    }
    assert(p >= 9) by {
        if p < 9 {
            assert(t.take(9)[p] == vp[p]);
        }
    }
    assert(m.take(9) =~= t.take(9));
    if contains_seq(m, ws) {
        let i = choose|i: int| occurs_at(ws, m, i);
        assert forall|j: int| 0 <= j < 9 implies m[i + j] == ws[j] && ws[j] != '"' by {
            assert(m.subrange(i, i + 9)[j] == m[i + j]);
        }
        if i <= p && p < i + 9 {
            assert(m[p] == '"');
            assert(m[i + (p - i)] == ws[p - i]);
        } else if i <= p + 1 + nl && p + 1 + nl < i + 9 {
            assert(m[p + 1 + nl] == '"');
            assert(m[i + (p + 1 + nl - i)] == ws[p + 1 + nl - i]);
        } else if i + 9 <= p {
            assert forall|j: int| 0 <= j < 9 implies t.subrange(i, i + 9)[j] == ws[j] by {
                assert(m[i + j] == t[i + j]);
            }
            assert(t.subrange(i, i + 9) =~= ws);
            assert(occurs_at(ws, t, i));
        } else if i > p && i + 9 <= p + 1 + nl {
            let o = i - p - 1;
            assert forall|j: int| 0 <= j < 9 implies next.subrange(o, o + 9)[j] == ws[j] by {
                assert(m[i + j] == next[o + j]);
            }
            assert(next.subrange(o, o + 9) =~= ws);
            assert(occurs_at(ws, next, o));
        } else {
            let d = i - (p + nl + 2);
            let o = p + cl + 2 + d;
            assert forall|j: int| 0 <= j < 9 implies t.subrange(o, o + 9)[j] == ws[j] by {
                assert(m[i + j] == u2[d + j]);
                assert(u2[d + j] == t[o + j]);
            }
            assert(t.subrange(o, o + 9) =~= ws);
            assert(occurs_at(ws, t, o));
        }
    }
}

/// The bump of the line that `version_in_lines` reads its version from: the
/// line still holds a version, and it is `next`.
pub proof fn lemma_bump_hit_line(l: Seq<char>, current: Seq<char>, next: Seq<char>)
    requires
        is_version_line(l),
        split_spec(trim_seq(l), '"').len() > 2,
        split_spec(trim_seq(l), '"')[1] == current,
        free_of(next, '"'),
        !contains_seq(next, "workspace"@),
    ensures
        is_version_line(bumped_line(l, current, next)),
        split_spec(trim_seq(bumped_line(l, current, next)), '"').len() > 1,
        split_spec(trim_seq(bumped_line(l, current, next)), '"')[1] == next,
{
    let t = trim_seq(l);
    let p = lemma_quoted_version(t, current);
    let cl = current.len() as int;
    let u2 = t.skip(p + cl + 2);
    let k = lemma_trim_decompose(l);
    let w1 = l.take(k);
    let w2 = l.skip(k + t.len());
    let q = k + p;
    assert(l.subrange(q, q + cl + 2) =~= quoted(current)) by {
        assert forall|j: int| 0 <= j < cl + 2 implies l.subrange(q, q + cl + 2)[j]
            == quoted(current)[j] by {
            assert(l[q + j] == t[p + j]);
        }
    }
    assert forall|j: int| 0 <= j < q implies !occurs_at(quoted(current), l, j) by {
        if occurs_at(quoted(current), l, j) {
            assert(l.subrange(j, j + cl + 2)[0] == quoted(current)[0]);
            if j < k {
                assert(l[j] == w1[j]);
            } else {
                assert(l[j] == t[j - k]);
                assert(t.take(p)[j - k] == t[j - k]);
            }
        }
    }
    assert(first_occurrence(quoted(current), l, q));
    assert(line_has_version(l, current));
    let c = choose|i: int| first_occurrence(quoted(current), l, i);
    lemma_first_unique(quoted(current), l, q, c);
    let b = bumped_line(l, current, next);
    let m = t.take(p) + quoted(next) + u2;
    assert(l.skip(q + cl + 2) =~= u2 + w2);
    assert(b =~= w1 + m + w2);
    assert(solid(m)) by {
        if p > 0 {
            assert(m[0] == t[0]);
        } else {
            assert(m[0] == '"');
        }
        if u2.len() > 0 {
            assert(m.last() == u2.last());
            assert(u2.last() == t.last());
        } else {
            assert(m.last() == '"');
        }
    }
    lemma_trim_frame(w1, m, w2);
    assert(m =~= t.take(p).push('"') + (next.push('"') + u2));
    lemma_split_first(t.take(p), next.push('"') + u2, '"');
    lemma_split_first(next, u2, '"');
    lemma_split_nonempty(u2, '"');
    lemma_requoted_line(t, p, current, next);
}

/// Bumping every line from the version the lines record to `next`: the
/// lines then record `next`.
pub proof fn lemma_bump_lines(lines: Seq<Seq<char>>, current: Seq<char>, next: Seq<char>)
    requires
        version_in_lines(lines) == Some(current),
        version_closed(lines),
        free_of(next, '"'),
        !contains_seq(next, "workspace"@),
    ensures
        version_in_lines(lines.map_values(|l: Seq<char>| bumped_line(l, current, next))) == Some(
            next,
        ),
    decreases lines.len(),
{
    let m = lines.map_values(|l: Seq<char>| bumped_line(l, current, next));
    let t = trim_seq(lines[0]);
    assert(m[0] == bumped_line(lines[0], current, next));
    if is_version_line(lines[0]) && split_spec(t, '"').len() > 1 {
        lemma_bump_hit_line(lines[0], current, next);
    } else {
        lemma_bump_skipped_line(lines[0], current, next);
        let rest = lines.drop_first();
        lemma_bump_lines(rest, current, next);
        assert(m.drop_first() =~= rest.map_values(|l: Seq<char>| bumped_line(l, current, next)));
    }
}

/// `version_in_lines` reads only the trimmed lines.
pub proof fn lemma_version_by_trim(a: Seq<Seq<char>>, b: Seq<Seq<char>>)
    requires
        a.len() == b.len(),
        forall|i: int| 0 <= i < a.len() ==> trim_seq(#[trigger] a[i]) == trim_seq(b[i]),
    ensures
        version_in_lines(a) == version_in_lines(b),
    decreases a.len(),
{
    if a.len() > 0 {
        assert(trim_seq(a[0]) == trim_seq(b[0]));
        lemma_version_by_trim(a.drop_first(), b.drop_first());
        assert forall|i: int| 0 <= i < a.drop_first().len() implies trim_seq(
            #[trigger] a.drop_first()[i],
        ) == trim_seq(b.drop_first()[i]) by {
            assert(trim_seq(a[i + 1]) == trim_seq(b[i + 1]));
        }
    }
}

/// The bump brings in no line break, and leaves a non-empty line non-empty.
pub proof fn lemma_bumped_line_shape(l: Seq<char>, current: Seq<char>, next: Seq<char>)
    requires
        free_of(l, '\n'),
        free_of(next, '\n'),
    ensures
        free_of(bumped_line(l, current, next), '\n'),
        l.len() > 0 ==> bumped_line(l, current, next).len() > 0,
{
    if line_has_version(l, current) {
        let pat = quoted(current);
        let to = quoted(next);
        let i = choose|i: int| occurs_at(pat, l, i);
        assert(exists|j: int| first_occurrence(pat, l, j)) by {
            let j = lemma_first_occurrence(pat, l, i);
        }
        let c = choose|j: int| first_occurrence(pat, l, j);
        let b = l.take(c) + to + l.skip(c + pat.len());
        assert(bumped_line(l, current, next) == b);
        assert forall|k: int| 0 <= k < b.len() implies b[k] != '\n' by {
            if k < c {
                assert(b[k] == l[k]);
            } else if k < c + to.len() {
                assert(b[k] == to[k - c]);
                if 0 < k - c < to.len() - 1 {
                    assert(to[k - c] == next[k - c - 1]);
                }
            } else {
                assert(b[k] == l[k - to.len() + pat.len()]);
            }
        }
    }
}

/// Some occurrence is the first one.
proof fn lemma_first_occurrence(pat: Seq<char>, s: Seq<char>, i: int) -> (c: int)
    requires
        occurs_at(pat, s, i),
    ensures
        first_occurrence(pat, s, c),
    decreases i,
{
    if forall|j: int| 0 <= j < i ==> !occurs_at(pat, s, j) {
        i
    } else {
        let j = choose|j: int| 0 <= j < i && occurs_at(pat, s, j);
        lemma_first_occurrence(pat, s, j)
    }
}

} // verus!
