//! Release automation: bumping a semantic version, finding and rewriting the
//! version lines of `Cargo.toml` and `tauri.conf.json`, and the release
//! checks.
//!
//! Reading and writing files and running `git` and `cargo` are the caller's.

use vstd::prelude::*;
use crate::num::{ParseUintError, dec_chars, dec_seq, parse_error_message, parse_uint, parse_uint_spec};
use crate::text::{
    chars_eq, chars_of, contains_chars, contains_seq, is_prefix_of, is_suffix_of, is_whitespace,
    is_ws, lowercase, occurs_at, push_chars, push_str_chars, starts_with_chars, ends_with_chars,
    string_from_chars, to_lowercase, trim_chars, trim_seq,
};

verus! {

/// `s` split at every `sep` (`str::split` with a character pattern); an
/// empty text gives one empty piece.
pub open spec fn split_spec(s: Seq<char>, sep: char) -> Seq<Seq<char>>
    decreases s.len(),
{
    if s.len() == 0 {
        seq![Seq::<char>::empty()]
    } else {
        let rest = split_spec(s.drop_last(), sep);
        if s.last() == sep {
            rest.push(Seq::<char>::empty())
        } else {
            rest.update(rest.len() - 1, rest.last().push(s.last()))
        }
    }
}

pub proof fn lemma_split_nonempty(s: Seq<char>, sep: char)
    ensures
        split_spec(s, sep).len() >= 1,
    decreases s.len(),
{
    if s.len() > 0 {
        lemma_split_nonempty(s.drop_last(), sep);
    }
}

/// Splits `s` at every `sep`.
pub fn split_chars(s: &Vec<char>, sep: char) -> (r: Vec<Vec<char>>)
    ensures
        r@.map_values(|v: Vec<char>| v@) == split_spec(s@, sep),
{
    let mut parts: Vec<Vec<char>> = Vec::new();
    let mut cur: Vec<char> = Vec::new();
    let mut i: usize = 0;
    while i < s.len()
        invariant
            0 <= i <= s@.len(),
            parts@.map_values(|v: Vec<char>| v@).push(cur@) == split_spec(s@.take(i as int), sep),
        decreases s@.len() - i,
    {
        let c = s[i];
        let ghost before = parts@.map_values(|v: Vec<char>| v@).push(cur@);
        proof {
            assert(s@.take(i + 1).drop_last() =~= s@.take(i as int));
            lemma_split_nonempty(s@.take(i as int), sep);
        }
        if c == sep {
            let done = cur;
            parts.push(done);
            cur = Vec::new();
            proof {
                assert(parts@.map_values(|v: Vec<char>| v@).push(cur@) =~= before.push(
                    Seq::<char>::empty(),
                ));
            }
        } else {
            cur.push(c);
            proof {
                assert(parts@.map_values(|v: Vec<char>| v@).push(cur@) =~= before.update(
                    before.len() - 1,
                    before.last().push(c),
                ));
            }
        }
        i = i + 1;
    }
    parts.push(cur);
    proof {
        assert(s@.take(s@.len() as int) =~= s@);
    }
    parts
}

/// The lines of `s` (`str::lines`): split at `\n`, without a trailing empty
/// piece, and with the `\r` of a `\r\n` ending removed.
pub open spec fn lines_spec(s: Seq<char>) -> Seq<Seq<char>> {
    if s.len() == 0 {
        Seq::empty()
    } else {
        let parts = split_spec(s, '\n');
        let full = if s.last() == '\n' {
            parts.drop_last()
        } else {
            parts
        };
        Seq::new(
            full.len(),
            |i: int|
                if i + 1 < parts.len() && full[i].len() > 0 && full[i].last() == '\r' {
                    full[i].drop_last()
                } else {
                    full[i]
                },
        )
    }
}

/// The lines of `s`.
pub fn lines_of(s: &Vec<char>) -> (r: Vec<Vec<char>>)
    ensures
        r@.map_values(|v: Vec<char>| v@) == lines_spec(s@),
{
    let mut out: Vec<Vec<char>> = Vec::new();
    if s.len() == 0 {
        proof {
            assert(out@.map_values(|v: Vec<char>| v@) =~= lines_spec(s@));
        }
        return out;
    }
    let parts = split_chars(s, '\n');
    let ghost pv = parts@.map_values(|v: Vec<char>| v@);
    proof {
        lemma_split_nonempty(s@, '\n');
    }
    let n = if s[s.len() - 1] == '\n' {
        parts.len() - 1
    } else {
        parts.len()
    };
    let mut i: usize = 0;
    while i < n
        invariant
            0 <= i <= n,
            n <= parts@.len(),
            pv == parts@.map_values(|v: Vec<char>| v@),
            pv.len() == parts@.len(),
            out@.map_values(|v: Vec<char>| v@) == Seq::new(
                i as nat,
                |k: int|
                    if k + 1 < pv.len() && pv[k].len() > 0 && pv[k].last() == '\r' {
                        pv[k].drop_last()
                    } else {
                        pv[k]
                    },
            ),
        decreases n - i,
    {
        let p = &parts[i];
        let mut line: Vec<char> = p.clone();
        if i + 1 < parts.len() && line.len() > 0 && line[line.len() - 1] == '\r' {
            line.pop();
        }
        let ghost before = out@.map_values(|v: Vec<char>| v@);
        proof {
            assert(pv[i as int] == p@);
            assert(line@ == if i + 1 < pv.len() && pv[i as int].len() > 0 && pv[i as int].last()
                == '\r' {
                pv[i as int].drop_last()
            } else {
                pv[i as int]
            });
        }
        out.push(line);
        proof {
            assert(out@.map_values(|v: Vec<char>| v@) =~= before.push(line@));
        }
        i = i + 1;
        proof {
            assert(out@.map_values(|v: Vec<char>| v@) =~= Seq::new(
                i as nat,
                |k: int|
                    if k + 1 < pv.len() && pv[k].len() > 0 && pv[k].last() == '\r' {
                        pv[k].drop_last()
                    } else {
                        pv[k]
                    },
            ));
        }
    }
    proof {
        let full = if s@.last() == '\n' {
            pv.drop_last()
        } else {
            pv
        };
        assert(full.len() == n);
        assert(out@.map_values(|v: Vec<char>| v@) =~= lines_spec(s@));
    }
    out
}

/// The strings of `list` joined with `sep` between them.
pub open spec fn join_lines_spec(list: Seq<Seq<char>>, sep: Seq<char>) -> Seq<char>
    decreases list.len(),
{
    if list.len() == 0 {
        Seq::empty()
    } else if list.len() == 1 {
        list[0]
    } else {
        join_lines_spec(list.drop_last(), sep) + sep + list.last()
    }
}

/// Joins `list` with `sep` between the items.
pub fn join_chars(list: &Vec<Vec<char>>, sep: &str) -> (r: Vec<char>)
    ensures
        r@ == join_lines_spec(list@.map_values(|v: Vec<char>| v@), sep@),
{
    let ghost lv = list@.map_values(|v: Vec<char>| v@);
    let mut out: Vec<char> = Vec::new();
    let mut i: usize = 0;
    while i < list.len()
        invariant
            0 <= i <= list@.len(),
            lv == list@.map_values(|v: Vec<char>| v@),
            out@ == join_lines_spec(lv.take(i as int), sep@),
        decreases list@.len() - i,
    {
        proof {
            assert(lv.take(i + 1).drop_last() =~= lv.take(i as int));
            assert(lv.take(i + 1).last() == list@[i as int]@);
        }
        if i != 0 {
            push_str_chars(&mut out, sep);
        } else {
            proof {
                assert(join_lines_spec(lv.take(0), sep@) =~= Seq::<char>::empty());
                assert(out@ =~= Seq::<char>::empty());
            }
        }
        push_chars(&mut out, &list[i]);
        i = i + 1;
        proof {
            assert(out@ =~= join_lines_spec(lv.take(i as int), sep@));
        }
    }
    proof {
        assert(lv.take(list@.len() as int) =~= lv);
    }
    out
}

/// `lines.join("\n")`, with a final `\n` when the original text ended in one.
pub open spec fn reassemble_spec(lines: Seq<Seq<char>>, original: Seq<char>) -> Seq<char> {
    let body = join_lines_spec(lines, "\n"@);
    if original.len() > 0 && original.last() == '\n' {
        body + "\n"@
    } else {
        body
    }
}

fn reassemble(lines: &Vec<Vec<char>>, original: &Vec<char>) -> (r: String)
    ensures
        r@ == reassemble_spec(lines@.map_values(|v: Vec<char>| v@), original@),
{
    let mut body = join_chars(lines, "\n");
    if original.len() > 0 && original[original.len() - 1] == '\n' {
        push_str_chars(&mut body, "\n");
    }
    string_from_chars(&body)
}

/// A `Cargo.toml` line that holds the package version (and not a
/// `version.workspace` reference).
pub open spec fn is_version_line(line: Seq<char>) -> bool {
    let t = trim_seq(line);
    is_prefix_of("version ="@, t) && !contains_seq(t, "workspace"@)
}

/// The workspace version: the text between the first and second `"` of the
/// first version line that has a `"`.
pub open spec fn version_in_lines(lines: Seq<Seq<char>>) -> Option<Seq<char>>
    decreases lines.len(),
{
    if lines.len() == 0 {
        None
    } else {
        let t = trim_seq(lines[0]);
        if is_version_line(lines[0]) && split_spec(t, '"').len() > 1 {
            Some(split_spec(t, '"')[1])
        } else {
            version_in_lines(lines.drop_first())
        }
    }
}

fn version_line_check(line: &Vec<char>) -> (r: (bool, Vec<char>))
    ensures
        r.0 == is_version_line(line@),
        r.1@ == trim_seq(line@),
{
    let t = trim_chars(line);
    let ok = starts_with_chars(&t, &chars_of("version =")) && !contains_chars(
        &t,
        &chars_of("workspace"),
    );
    (ok, t)
}

/// The version recorded in a workspace `Cargo.toml`.
pub fn workspace_version(content: &str) -> (r: Option<String>)
    ensures
        match r {
            Some(v) => version_in_lines(lines_spec(content@)) == Some(v@),
            None => version_in_lines(lines_spec(content@)) is None,
        },
{
    let lines = lines_of(&chars_of(content));
    let ghost lv = lines@.map_values(|v: Vec<char>| v@);
    let mut i: usize = 0;
    proof {
        assert(lv.skip(0) =~= lv);
    }
    while i < lines.len()
        invariant
            0 <= i <= lines@.len(),
            lv == lines@.map_values(|v: Vec<char>| v@),
            lv == lines_spec(content@),
            version_in_lines(lv) == version_in_lines(lv.skip(i as int)),
        decreases lines@.len() - i,
    {
        let (ok, t) = version_line_check(&lines[i]);
        proof {
            assert(lv.skip(i as int)[0] == lines@[i as int]@);
            assert(lv.skip(i as int).drop_first() =~= lv.skip(i + 1));
        }
        if ok {
            let pieces = split_chars(&t, '"');
            proof {
                assert(pieces@.map_values(|v: Vec<char>| v@).len() == pieces@.len());
            }
            if pieces.len() > 1 {
                proof {
                    assert(pieces@.map_values(|v: Vec<char>| v@)[1] == pieces@[1]@);
                }
                return Some(string_from_chars(&pieces[1]));
            }
        }
        i = i + 1;
    }
    proof {
        assert(lv.skip(i as int).len() == 0);
    }
    None
}

/// The error when no version line was found.
pub const NO_WORKSPACE_VERSION: &'static str = "could not find version in workspace Cargo.toml";

/// `sub` first occurs in `s` at `i`.
pub open spec fn first_occurrence(sub: Seq<char>, s: Seq<char>, i: int) -> bool {
    occurs_at(sub, s, i) && forall|j: int| 0 <= j < i ==> !occurs_at(sub, s, j)
}

/// `s` with its first occurrence of `pat` replaced by `to`
/// (`str::replacen(pat, to, 1)`).
pub open spec fn replace_first_spec(s: Seq<char>, pat: Seq<char>, to: Seq<char>) -> Seq<char> {
    if exists|i: int| first_occurrence(pat, s, i) {
        let i = choose|i: int| first_occurrence(pat, s, i);
        s.take(i) + to + s.skip(i + pat.len())
    } else {
        s
    }
}

pub(crate) proof fn lemma_first_unique(pat: Seq<char>, s: Seq<char>, i: int, j: int)
    requires
        first_occurrence(pat, s, i),
        first_occurrence(pat, s, j),
    ensures
        i == j,
{
    if i < j {
        assert(!occurs_at(pat, s, i));
    } else if j < i {
        assert(!occurs_at(pat, s, j));
    }
}

fn occurs_at_exec(s: &Vec<char>, sub: &Vec<char>, i: usize) -> (r: bool)
    requires
        i + sub@.len() <= s@.len(),
    ensures
        r == occurs_at(sub@, s@, i as int),
{
    let n = s.len();
    let mut j: usize = 0;
    while j < sub.len()
        invariant
            0 <= j <= sub@.len(),
            n == s@.len(),
            i + sub@.len() <= s@.len(),
            forall|k: int| 0 <= k < j ==> s@[i + k] == sub@[k],
        decreases sub@.len() - j,
    {
        if s[i + j] != sub[j] {
            proof {
                assert(s@.subrange(i as int, i + sub@.len())[j as int] != sub@[j as int]);
            }
            return false;
        }
        j = j + 1;
    }
    proof {
        assert(s@.subrange(i as int, i + sub@.len()) =~= sub@);
    }
    true
}

/// Replaces the first occurrence of `pat` in `s` by `to`.
pub fn replace_first(s: &Vec<char>, pat: &Vec<char>, to: &Vec<char>) -> (r: Vec<char>)
    ensures
        r@ == replace_first_spec(s@, pat@, to@),
{
    if pat.len() <= s.len() {
        let last = s.len() - pat.len();
        let n = s.len();
        let mut i: usize = 0;
        loop
            invariant_except_break
                last + pat@.len() == s@.len(),
                n == s@.len(),
                0 <= i <= last,
                forall|k: int| 0 <= k < i ==> !occurs_at(pat@, s@, k),
            ensures
                forall|k: int| 0 <= k <= last ==> !occurs_at(pat@, s@, k),
            decreases last - i,
        {
            if occurs_at_exec(s, pat, i) {
                proof {
                    assert(first_occurrence(pat@, s@, i as int));
                    let c = choose|c: int| first_occurrence(pat@, s@, c);
                    lemma_first_unique(pat@, s@, i as int, c);
                }
                let mut out: Vec<char> = Vec::new();
                let mut k: usize = 0;
                while k < i
                    invariant
                        0 <= k <= i <= s@.len(),
                        out@ == s@.take(k as int),
                    decreases i - k,
                {
                    out.push(s[k]);
                    k = k + 1;
                    proof {
                        assert(out@ =~= s@.take(k as int));
                    }
                }
                push_chars(&mut out, to);
                let mut k: usize = i + pat.len();
                let ghost base = out@;
                while k < s.len()
                    invariant
                        i + pat@.len() <= k <= s@.len(),
                        out@ == base + s@.subrange(i + pat@.len(), k as int),
                    decreases s@.len() - k,
                {
                    out.push(s[k]);
                    k = k + 1;
                    proof {
                        assert(out@ =~= base + s@.subrange(i + pat@.len(), k as int));
                    }
                }
                proof {
                    assert(s@.subrange(i + pat@.len(), s@.len() as int) =~= s@.skip(i + pat@.len()));
                }
                return out;
            }
            if i == last {
                break;
            }
            i = i + 1;
        }
        proof {
            assert forall|c: int| !first_occurrence(pat@, s@, c) by {
                if 0 <= c <= last {
                }
            }
        }
    } else {
        proof {
            assert forall|c: int| !first_occurrence(pat@, s@, c) by {}
        }
    }
    s.clone()
}

/// `"<v>"`: a version in double quotes.
pub open spec fn quoted(v: Seq<char>) -> Seq<char> {
    seq!['"'] + v + seq!['"']
}

fn quote(v: &str) -> (r: Vec<char>)
    ensures
        r@ == quoted(v@),
{
    let mut out: Vec<char> = Vec::new();
    out.push('"');
    push_str_chars(&mut out, v);
    out.push('"');
    proof {
        assert(out@ =~= quoted(v@));
    }
    out
}

/// A `Cargo.toml` line that holds the version `current`.
pub open spec fn line_has_version(line: Seq<char>, current: Seq<char>) -> bool {
    is_version_line(line) && contains_seq(line, quoted(current))
}

/// The line after the bump from `current` to `next`.
pub open spec fn bumped_line(line: Seq<char>, current: Seq<char>, next: Seq<char>) -> Seq<char> {
    if line_has_version(line, current) {
        replace_first_spec(line, quoted(current), quoted(next))
    } else {
        line
    }
}

/// Rewriting a `Cargo.toml` from `current` to `next`: each version line that
/// holds `"current"` gets its first `"current"` replaced by `"next"`; the flag
/// tells whether any line was such a line.
pub open spec fn rewrite_version_spec(content: Seq<char>, current: Seq<char>, next: Seq<char>) -> (
    Seq<char>,
    bool,
) {
    let lines = lines_spec(content);
    (
        reassemble_spec(lines.map_values(|l: Seq<char>| bumped_line(l, current, next)), content),
        exists|i: int| 0 <= i < lines.len() && line_has_version(#[trigger] lines[i], current),
    )
}

/// Rewrites the version lines of a `Cargo.toml` text.
pub fn rewrite_version_text(content: &str, current: &str, next: &str) -> (r: (String, bool))
    ensures
        (r.0@, r.1) == rewrite_version_spec(content@, current@, next@),
{
    let cs = chars_of(content);
    let lines = lines_of(&cs);
    let ghost lv = lines@.map_values(|v: Vec<char>| v@);
    let pat = quote(current);
    let to = quote(next);
    let mut out: Vec<Vec<char>> = Vec::new();
    let mut changed = false;
    let mut i: usize = 0;
    while i < lines.len()
        invariant
            0 <= i <= lines@.len(),
            lv == lines@.map_values(|v: Vec<char>| v@),
            lv == lines_spec(content@),
            pat@ == quoted(current@),
            to@ == quoted(next@),
            out@.map_values(|v: Vec<char>| v@) == lv.take(i as int).map_values(
                |l: Seq<char>| bumped_line(l, current@, next@),
            ),
            changed == exists|k: int| 0 <= k < i && line_has_version(#[trigger] lv[k], current@),
        decreases lines@.len() - i,
    {
        let line = &lines[i];
        let (ok, _t) = version_line_check(line);
        let hit = ok && contains_chars(line, &pat);
        proof {
            assert(lv[i as int] == line@);
            assert(hit == line_has_version(lv[i as int], current@));
        }
        let new_line = if hit {
            replace_first(line, &pat, &to)
        } else {
            line.clone()
        };
        if hit {
            changed = true;
        }
        let ghost before = out@.map_values(|v: Vec<char>| v@);
        proof {
            assert(new_line@ == bumped_line(lv[i as int], current@, next@));
            assert(lv.take(i + 1) =~= lv.take(i as int).push(lv[i as int]));
            assert(lv.take(i + 1).map_values(|l: Seq<char>| bumped_line(l, current@, next@)) =~= lv.take(
                i as int,
            ).map_values(|l: Seq<char>| bumped_line(l, current@, next@)).push(
                bumped_line(lv[i as int], current@, next@),
            ));
        }
        out.push(new_line);
        proof {
            assert(out@.map_values(|v: Vec<char>| v@) =~= before.push(new_line@));
        }
        i = i + 1;
        proof {
            assert(out@.map_values(|v: Vec<char>| v@) =~= lv.take(i as int).map_values(
                |l: Seq<char>| bumped_line(l, current@, next@),
            ));
        }
    }
    proof {
        assert(lv.take(i as int) =~= lv);
    }
    (reassemble(&out, &cs), changed)
}

/// The leading white space of `s`.
pub open spec fn indent_len(s: Seq<char>, k: int) -> bool {
    0 <= k <= s.len() && (forall|j: int| 0 <= j < k ==> is_ws(#[trigger] s[j])) && (k == s.len()
        || !is_ws(s[k]))
}

pub open spec fn indent_of(s: Seq<char>) -> Seq<char> {
    s.take(choose|k: int| indent_len(s, k))
}

/// A `tauri.conf.json` line holding the version key.
pub open spec fn is_conf_version_line(line: Seq<char>) -> bool {
    is_prefix_of("\"version\":"@, trim_seq(line))
}

/// The version line of `tauri.conf.json` for `next`, keeping the line's
/// indentation and trailing comma.
pub open spec fn conf_line(line: Seq<char>, next: Seq<char>) -> Seq<char> {
    if is_conf_version_line(line) {
        indent_of(line) + "\"version\": \""@ + next + "\""@ + if is_suffix_of(
            ","@,
            trim_seq(line),
        ) {
            ","@
        } else {
            Seq::<char>::empty()
        }
    } else {
        line
    }
}

/// Rewriting `tauri.conf.json`: each line whose trimmed text starts with
/// `"version":` becomes `"version": "<next>"`; the flag tells whether any did.
pub open spec fn rewrite_conf_spec(content: Seq<char>, next: Seq<char>) -> (Seq<char>, bool) {
    let lines = lines_spec(content);
    (
        reassemble_spec(lines.map_values(|l: Seq<char>| conf_line(l, next)), content),
        exists|i: int| 0 <= i < lines.len() && is_conf_version_line(#[trigger] lines[i]),
    )
}

fn indent_chars(s: &Vec<char>) -> (r: Vec<char>)
    ensures
        r@ == indent_of(s@),
{
    let mut out: Vec<char> = Vec::new();
    let mut k: usize = 0;
    while k < s.len() && is_whitespace(s[k])
        invariant
            0 <= k <= s@.len(),
            out@ == s@.take(k as int),
            forall|j: int| 0 <= j < k ==> is_ws(#[trigger] s@[j]),
        decreases s@.len() - k,
    {
        out.push(s[k]);
        k = k + 1;
        proof {
            assert(out@ =~= s@.take(k as int));
        }
    }
    proof {
        assert(indent_len(s@, k as int));
        let c = choose|c: int| indent_len(s@, c);
        if c < k {
            assert(is_ws(s@[c]));
        } else if k < c {
            assert(is_ws(s@[k as int]));
        }
    }
    out
}

fn conf_line_exec(line: &Vec<char>, next: &str) -> (r: (Vec<char>, bool))
    ensures
        r.0@ == conf_line(line@, next@),
        r.1 == is_conf_version_line(line@),
{
    let t = trim_chars(line);
    if !starts_with_chars(&t, &chars_of("\"version\":")) {
        return (line.clone(), false);
    }
    let mut out = indent_chars(line);
    push_str_chars(&mut out, "\"version\": \"");
    push_str_chars(&mut out, next);
    push_str_chars(&mut out, "\"");
    if ends_with_chars(&t, &chars_of(",")) {
        push_str_chars(&mut out, ",");
    } else {
        proof {
            assert(out@ + Seq::<char>::empty() =~= out@);
        }
    }
    (out, true)
}

/// Rewrites the version line of a `tauri.conf.json` text.
pub fn rewrite_conf_text(content: &str, next: &str) -> (r: (String, bool))
    ensures
        (r.0@, r.1) == rewrite_conf_spec(content@, next@),
{
    let cs = chars_of(content);
    let lines = lines_of(&cs);
    let ghost lv = lines@.map_values(|v: Vec<char>| v@);
    let mut out: Vec<Vec<char>> = Vec::new();
    let mut changed = false;
    let mut i: usize = 0;
    while i < lines.len()
        invariant
            0 <= i <= lines@.len(),
            lv == lines@.map_values(|v: Vec<char>| v@),
            lv == lines_spec(content@),
            out@.map_values(|v: Vec<char>| v@) == lv.take(i as int).map_values(
                |l: Seq<char>| conf_line(l, next@),
            ),
            changed == exists|k: int| 0 <= k < i && is_conf_version_line(#[trigger] lv[k]),
        decreases lines@.len() - i,
    {
        let (nl, hit) = conf_line_exec(&lines[i], next);
        if hit {
            changed = true;
        }
        let ghost before = out@.map_values(|v: Vec<char>| v@);
        proof {
            assert(lv[i as int] == lines@[i as int]@);
            assert(lv.take(i + 1) =~= lv.take(i as int).push(lv[i as int]));
            assert(lv.take(i + 1).map_values(|l: Seq<char>| conf_line(l, next@)) =~= lv.take(
                i as int,
            ).map_values(|l: Seq<char>| conf_line(l, next@)).push(conf_line(lv[i as int], next@)));
        }
        out.push(nl);
        proof {
            assert(out@.map_values(|v: Vec<char>| v@) =~= before.push(nl@));
        }
        i = i + 1;
        proof {
            assert(out@.map_values(|v: Vec<char>| v@) =~= lv.take(i as int).map_values(
                |l: Seq<char>| conf_line(l, next@),
            ));
        }
    }
    proof {
        assert(lv.take(i as int) =~= lv);
    }
    (reassemble(&out, &cs), changed)
}

/// The numbers of the pieces, read left to right; the first piece that is
/// not a `u64` decides the error.
pub open spec fn parse_parts(parts: Seq<Seq<char>>) -> Result<Seq<nat>, ParseUintError>
    decreases parts.len(),
{
    if parts.len() == 0 {
        Ok(Seq::empty())
    } else {
        match parse_parts(parts.drop_last()) {
            Err(e) => Err(e),
            Ok(ns) => match parse_uint_spec(parts.last(), u64::MAX as nat) {
                Ok(n) => Ok(ns.push(n)),
                Err(e) => Err(e),
            },
        }
    }
}

/// `major`, `minor` or `patch`.
pub open spec fn is_level(level: Seq<char>) -> bool {
    level == "major"@ || level == "minor"@ || level == "patch"@
}

/// Bumping `version` at `level`: the dotted parts must be three `u64`s; the
/// named part goes up by one and the parts after it return to zero.
pub open spec fn bump_spec(version: Seq<char>, level: Seq<char>) -> Result<Seq<char>, Seq<char>> {
    match parse_parts(split_spec(version, '.')) {
        Err(e) => Err("invalid version: "@ + parse_error_message(e)),
        Ok(ns) => if ns.len() != 3 {
            Err("expected semver x.y.z, got "@ + version)
        } else if level == "major"@ {
            Ok(dec_seq(ns[0] + 1) + ".0.0"@)
        } else if level == "minor"@ {
            Ok(dec_seq(ns[0]) + "."@ + dec_seq(ns[1] + 1) + ".0"@)
        } else {
            Ok(dec_seq(ns[0]) + "."@ + dec_seq(ns[1]) + "."@ + dec_seq(ns[2] + 1))
        },
    }
}

/// The dotted parts of `version` are three `u64`s.
pub open spec fn is_three_part(version: Seq<char>) -> bool {
    parse_parts(split_spec(version, '.')) matches Ok(ns) && ns.len() == 3
}

/// The bumped part would pass `u64::MAX`.
pub open spec fn bump_overflows(version: Seq<char>, level: Seq<char>) -> bool {
    match parse_parts(split_spec(version, '.')) {
        Ok(ns) => ns.len() == 3 && (if level == "major"@ {
            ns[0] == u64::MAX
        } else if level == "minor"@ {
            ns[1] == u64::MAX
        } else {
            ns[2] == u64::MAX
        }),
        Err(_) => false,
    }
}

/// Bumps a semantic version (`x.y.z`) at `level`.
pub fn bump_semver(version: &str, level: &str) -> (r: Result<String, String>)
    requires
        is_three_part(version@) ==> is_level(level@),
        !bump_overflows(version@, level@),
    ensures
        match bump_spec(version@, level@) {
            Ok(v) => r matches Ok(s) && s@ == v,
            Err(e) => r matches Err(s) && s@ == e,
        },
{
    let vs = chars_of(version);
    let parts = split_chars(&vs, '.');
    let ghost pv = parts@.map_values(|v: Vec<char>| v@);
    let mut nums: Vec<u64> = Vec::new();
    let mut i: usize = 0;
    proof {
        assert(pv.take(0) =~= Seq::<Seq<char>>::empty());
        assert(nums@.map_values(|n: u64| n as nat) =~= Seq::<nat>::empty());
    }
    while i < parts.len()
        invariant
            0 <= i <= parts@.len(),
            pv == parts@.map_values(|v: Vec<char>| v@),
            pv == split_spec(version@, '.'),
            parse_parts(pv.take(i as int)) == Ok::<Seq<nat>, ParseUintError>(
                nums@.map_values(|n: u64| n as nat),
            ),
        decreases parts@.len() - i,
    {
        proof {
            assert(pv.take(i + 1).drop_last() =~= pv.take(i as int));
            assert(pv.take(i + 1).last() == parts@[i as int]@);
        }
        match parse_uint(&parts[i], u64::MAX) {
            Ok(n) => {
                nums.push(n);
                proof {
                    assert(nums@.map_values(|n: u64| n as nat) =~= parse_parts(pv.take(i as int))->Ok_0.push(n as nat));
                }
            },
            Err(e) => {
                proof {
                    assert(parse_parts(pv.take(i + 1)) == Err::<Seq<nat>, ParseUintError>(e));
                    lemma_parse_parts_prefix_err(pv, i + 1);
                }
                let mut m = chars_of("invalid version: ");
                push_str_chars(&mut m, e.message());
                return Err(string_from_chars(&m));
            },
        }
        i = i + 1;
    }
    proof {
        assert(pv.take(i as int) =~= pv);
        assert(pv == split_spec(version@, '.'));
    }
    if nums.len() != 3 {
        let mut m = chars_of("expected semver x.y.z, got ");
        push_str_chars(&mut m, version);
        return Err(string_from_chars(&m));
    }
    let (major, minor, patch) = (nums[0], nums[1], nums[2]);
    proof {
        assert(nums@.map_values(|n: u64| n as nat)[0] == major as nat);
        assert(nums@.map_values(|n: u64| n as nat)[1] == minor as nat);
        assert(nums@.map_values(|n: u64| n as nat)[2] == patch as nat);
    }
    let lv = chars_of(level);
    let mut out: Vec<char>;
    if chars_eq(&lv, &chars_of("major")) {
        out = dec_chars(major + 1);
        push_str_chars(&mut out, ".0.0");
    } else if chars_eq(&lv, &chars_of("minor")) {
        out = dec_chars(major);
        push_str_chars(&mut out, ".");
        push_chars(&mut out, &dec_chars(minor + 1));
        push_str_chars(&mut out, ".0");
    } else {
        out = dec_chars(major);
        push_str_chars(&mut out, ".");
        push_chars(&mut out, &dec_chars(minor));
        push_str_chars(&mut out, ".");
        push_chars(&mut out, &dec_chars(patch + 1));
    }
    Ok(string_from_chars(&out))
}

/// Once a prefix of the pieces fails, the whole does, with the same error.
proof fn lemma_parse_parts_prefix_err(parts: Seq<Seq<char>>, k: int)
    requires
        0 <= k <= parts.len(),
        parse_parts(parts.take(k)) is Err,
    ensures
        parse_parts(parts) == parse_parts(parts.take(k)),
    decreases parts.len() - k,
{
    if k < parts.len() {
        assert(parts.take(k + 1).drop_last() =~= parts.take(k));
        lemma_parse_parts_prefix_err(parts, k + 1);
    } else {
        assert(parts.take(k) =~= parts);
    }
}

/// Whether `level` names a part of a version.
pub fn is_bump_level(level: &str) -> (r: bool)
    ensures
        r == is_level(level@),
{
    let l = chars_of(level);
    chars_eq(&l, &chars_of("major")) || chars_eq(&l, &chars_of("minor")) || chars_eq(
        &l,
        &chars_of("patch"),
    )
}

/// The release tag of a version, `v<version>`.
pub fn release_tag(version: &str) -> (r: String)
    ensures
        r@ == "v"@ + version@,
{
    let mut out = chars_of("v");
    push_str_chars(&mut out, version);
    string_from_chars(&out)
}

/// The message of the release tag, `xbark <version>`.
pub fn tag_message(version: &str) -> (r: String)
    ensures
        r@ == "xbark "@ + version@,
{
    let mut out = chars_of("xbark ");
    push_str_chars(&mut out, version);
    string_from_chars(&out)
}

/// The release branch check on `git rev-parse --abbrev-ref HEAD` output: the
/// error when the trimmed branch is not `main`.
pub fn branch_error(git_output: &str) -> (r: Option<String>)
    ensures
        trim_seq(git_output@) == "main"@ ==> r is None,
        trim_seq(git_output@) != "main"@ ==> (r matches Some(m) && m@
            == "release must happen on main, currently on "@ + trim_seq(git_output@)),
{
    let b = trim_chars(&chars_of(git_output));
    if chars_eq(&b, &chars_of("main")) {
        None
    } else {
        let mut m = chars_of("release must happen on main, currently on ");
        push_chars(&mut m, &b);
        Some(string_from_chars(&m))
    }
}

/// Whether an answer to the release prompt confirms: `y` or `yes`, ignoring
/// surrounding white space and case.
pub fn confirmed(answer: &str) -> (r: bool)
    ensures
        r == (lowercase(trim_seq(answer@)) == "y"@ || lowercase(trim_seq(answer@)) == "yes"@),
{
    let t = string_from_chars(&trim_chars(&chars_of(answer)));
    let l = chars_of(to_lowercase(t.as_str()).as_str());
    chars_eq(&l, &chars_of("y")) || chars_eq(&l, &chars_of("yes"))
}


/// The checks and steps of a release, in the order they run.
#[derive(Debug, Clone, Copy, PartialEq, Eq, Structural)]
pub enum ReleaseStage {
    /// `git status --porcelain` printed nothing.
    CleanTree,
    /// The current branch is `main`.
    OnMain,
    /// The tag does not exist yet.
    TagFree,
    /// The user confirmed (or nobody is asked: CI, or no terminal).
    Confirmed,
    /// `git push origin main` succeeded.
    PushMain,
    /// `git tag -a` succeeded.
    MakeTag,
    /// `git push origin <tag>` succeeded.
    PushTag,
}

/// What comes after a stage of a release.
#[derive(Debug, Clone, PartialEq, Eq)]
pub enum ReleaseNext {
    /// Run this stage next.
    Run(ReleaseStage),
    /// Every stage passed: the release is tagged and pushed.
    Released,
    /// Stop with this error.
    Abort(String),
}

/// The error a failed stage stops with; `branch_msg` is the branch check's
/// own message, and `tag` the release tag.
pub open spec fn stage_error(stage: ReleaseStage, tag: Seq<char>, branch_msg: Seq<char>) -> Seq<char> {
    match stage {
        ReleaseStage::CleanTree => "commit or stash changes first"@,
        ReleaseStage::OnMain => branch_msg,
        ReleaseStage::TagFree => "tag "@ + tag + " already exists — bump version first"@,
        ReleaseStage::Confirmed => "aborted"@,
        ReleaseStage::PushMain => "git push main failed"@,
        ReleaseStage::MakeTag => "git tag failed"@,
        ReleaseStage::PushTag => "git push tag failed"@,
    }
}

/// The stage after `stage`, or `None` after the last.
pub open spec fn stage_after(stage: ReleaseStage) -> Option<ReleaseStage> {
    match stage {
        ReleaseStage::CleanTree => Some(ReleaseStage::OnMain),
        ReleaseStage::OnMain => Some(ReleaseStage::TagFree),
        ReleaseStage::TagFree => Some(ReleaseStage::Confirmed),
        ReleaseStage::Confirmed => Some(ReleaseStage::PushMain),
        ReleaseStage::PushMain => Some(ReleaseStage::MakeTag),
        ReleaseStage::MakeTag => Some(ReleaseStage::PushTag),
        ReleaseStage::PushTag => None,
    }
}

/// What follows `stage` of the release of `tag`: the next stage when it
/// passed (`Released` after the last), else an abort with the stage's error.
pub fn release_next(stage: ReleaseStage, passed: bool, tag: &str, branch_msg: &str) -> (r:
    ReleaseNext)
    ensures
        passed ==> r == match stage_after(stage) {
            Some(n) => ReleaseNext::Run(n),
            None => ReleaseNext::Released,
        },
        !passed ==> (r matches ReleaseNext::Abort(m) && m@ == stage_error(stage, tag@, branch_msg@)),
{
    if passed {
        return match stage {
            ReleaseStage::CleanTree => ReleaseNext::Run(ReleaseStage::OnMain),
            ReleaseStage::OnMain => ReleaseNext::Run(ReleaseStage::TagFree),
            ReleaseStage::TagFree => ReleaseNext::Run(ReleaseStage::Confirmed),
            ReleaseStage::Confirmed => ReleaseNext::Run(ReleaseStage::PushMain),
            ReleaseStage::PushMain => ReleaseNext::Run(ReleaseStage::MakeTag),
            ReleaseStage::MakeTag => ReleaseNext::Run(ReleaseStage::PushTag),
            ReleaseStage::PushTag => ReleaseNext::Released,
        };
    }
    let m = match stage {
        ReleaseStage::CleanTree => chars_of("commit or stash changes first"),
        ReleaseStage::OnMain => chars_of(branch_msg),
        ReleaseStage::TagFree => {
            let mut m = chars_of("tag ");
            push_str_chars(&mut m, tag);
            push_str_chars(&mut m, " already exists — bump version first");
            m
        },
        ReleaseStage::Confirmed => chars_of("aborted"),
        ReleaseStage::PushMain => chars_of("git push main failed"),
        ReleaseStage::MakeTag => chars_of("git tag failed"),
        ReleaseStage::PushTag => chars_of("git push tag failed"),
    };
    ReleaseNext::Abort(string_from_chars(&m))
}

} // verus!
