//! Properties that relate several functions of the library.

use vstd::prelude::*;
use crate::assets::{check_current_spec, fingerprint_seq, UnpackOutcome};
use crate::client::{file_number, positive_width, terminal_width_spec};
use crate::release::{
    bump_spec, bumped_line, lines_spec, parse_parts, reassemble_spec, rewrite_version_spec,
    split_spec, lemma_split_nonempty, version_in_lines,
};
use crate::version_lines::{
    all_ws, free_of, lemma_bump_lines, lemma_trim_decompose, lemma_trim_frame, solid, lemma_bumped_line_shape, lemma_lines_reassembled, lemma_lines_shape,
    lemma_trim_drop_ws, lemma_version_by_trim, version_closed,
};
use crate::resolver::{
    best_tier, keys_distinct, lemma_filter_all, list_selects, resolves_to, selected, tier_matches, StickerMetaView,
};
use crate::text::{ascii_lower_char, contains_seq, is_ascii_text, lowercase, occurs_at};
use crate::listing::{columns_spec, lemma_width_le_twice, max_of, min_nat, RowView};
use crate::width::{pad_right_spec, pad_right_width,
    cut_target, ellipsis, fit_prefix, is_fit_len, lemma_fit_exists, lemma_fit_unique,
    lemma_width_concat, lemma_width_push, truncate_spec, width_seq,
};
use crate::num::{
    hex_digit, hex_fixed, dec_digit, dec_seq, digit_value, is_dec_digit, parse_digits, parse_uint_spec, ParseUintError,
};
use crate::text::{is_suffix_of, is_ws, trim_end_seq, trim_seq, trim_start_seq};

verus! {

proof fn lemma_dec_digit(d: nat)
    requires
        d < 10,
    ensures
        is_dec_digit(dec_digit(d)),
        digit_value(dec_digit(d)) == d,
        !is_ws(dec_digit(d)),
        dec_digit(d) != '+',
        dec_digit(d) != '-',
{
}

proof fn lemma_dec_seq_digits(n: nat)
    ensures
        dec_seq(n).len() >= 1,
        forall|i: int|
            0 <= i < dec_seq(n).len() ==> is_dec_digit(#[trigger] dec_seq(n)[i]) && !is_ws(
                dec_seq(n)[i],
            ) && dec_seq(n)[i] != '+' && dec_seq(n)[i] != '-',
    decreases n,
{
    if n < 10 {
        lemma_dec_digit(n);
    } else {
        lemma_dec_seq_digits(n / 10);
        lemma_dec_digit(n % 10);
    }
}

proof fn lemma_parse_digits_concat(acc: nat, s: Seq<char>, t: Seq<char>, max: nat, v: nat)
    requires
        parse_digits(acc, s, max) == Ok::<nat, ParseUintError>(v),
    ensures
        parse_digits(acc, s + t, max) == parse_digits(v, t, max),
    decreases s.len(),
{
    if s.len() == 0 {
        assert(s + t =~= t);
    } else {
        assert((s + t).drop_first() =~= s.drop_first() + t);
        assert((s + t)[0] == s[0]);
        lemma_parse_digits_concat(acc * 10 + digit_value(s[0]), s.drop_first(), t, max, v);
    }
}

/// Reading the decimal text of `n` back gives `n`.
proof fn lemma_parse_dec_digits(n: nat, max: nat)
    requires
        n <= max,
    ensures
        parse_digits(0, dec_seq(n), max) == Ok::<nat, ParseUintError>(n),
    decreases n,
{
    if n < 10 {
        lemma_dec_digit(n);
        let s = dec_seq(n);
        assert(s.drop_first() =~= Seq::<char>::empty());
        assert(s[0] == dec_digit(n));
        assert(parse_digits(n, s.drop_first(), max) == Ok::<nat, ParseUintError>(n));
        assert(0 * 10 + digit_value(s[0]) == n);
    } else {
        lemma_parse_dec_digits(n / 10, max);
        lemma_dec_digit(n % 10);
        let d = seq![dec_digit(n % 10)];
        assert(dec_seq(n) =~= dec_seq(n / 10) + d);
        lemma_parse_digits_concat(0, dec_seq(n / 10), d, max, n / 10);
        assert(d.drop_first() =~= Seq::<char>::empty());
        assert((n / 10) * 10 + n % 10 == n);
        assert(parse_digits(n, d.drop_first(), max) == Ok::<nat, ParseUintError>(n));
    }
}

/// Law: `str::parse` reads back the decimal text of every value that fits.
pub proof fn decimal_text_parses_back(n: nat, max: nat)
    requires
        n <= max,
    ensures
        parse_uint_spec(dec_seq(n), max) == Ok::<nat, ParseUintError>(n),
{
    lemma_dec_seq_digits(n);
    lemma_parse_dec_digits(n, max);
    assert(dec_seq(n)[0] != '+');
}

/// Law: trimming leaves decimal text unchanged.
pub proof fn decimal_text_is_trimmed(n: nat)
    ensures
        trim_seq(dec_seq(n)) == dec_seq(n),
{
    lemma_dec_seq_digits(n);
    let s = dec_seq(n);
    assert(!is_ws(s[0]));
    assert(trim_start_seq(s) == s);
    assert(!is_ws(s.last()));
    assert(trim_end_seq(s) == s);
}

/// Law: the port the daemon writes to its port file (`port.to_string()`)
/// is the port the client reads from it.
pub proof fn port_file_round_trip(port: u16)
    ensures
        file_number(dec_seq(port as nat), u16::MAX as nat) == Some(port as nat),
{
    decimal_text_is_trimmed(port as nat);
    decimal_text_parses_back(port as nat, u16::MAX as nat);
}

/// Law: the pid the daemon writes to its pid file is the pid the client
/// reads from it.
pub proof fn pid_file_round_trip(pid: u32)
    ensures
        file_number(dec_seq(pid as nat), u32::MAX as nat) == Some(pid as nat),
{
    decimal_text_is_trimmed(pid as nat);
    decimal_text_parses_back(pid as nat, u32::MAX as nat);
}

/// Law: a pack's fingerprint ends with the pack's length in decimal.
pub proof fn fingerprint_ends_with_length(bytes: Seq<u8>)
    ensures
        is_suffix_of(dec_seq(bytes.len()), fingerprint_seq(bytes)),
{
    let f = fingerprint_seq(bytes);
    let d = dec_seq(bytes.len());
    assert(f.skip(f.len() - d.len()) =~= d);
}

/// Law: the terminal width is never zero.
pub proof fn terminal_width_positive(columns_env: Option<Seq<char>>, tput_output: Option<Seq<char>>)
    ensures
        terminal_width_spec(columns_env, tput_output) >= 1,
{
}

/// Law: cutting text to `width` columns yields at most `width` columns (at
/// least the one column of the ellipsis), text that fits unchanged, and
/// otherwise a prefix of the text followed by an ellipsis.
pub proof fn truncate_width_bound(s: Seq<char>, width: nat)
    ensures
        width_seq(truncate_spec(s, width)) <= if width == 0 {
            1
        } else {
            width
        },
        width_seq(s) <= width ==> truncate_spec(s, width) == s,
        width_seq(s) > width ==> exists|k: int|
            0 <= k <= s.len() && truncate_spec(s, width) == s.take(k).push(ellipsis()),
{
    if width_seq(s) > width {
        let t = cut_target(width);
        lemma_fit_exists(s, t, 0);
        let k = choose|k: nat| is_fit_len(s, t, k);
        lemma_fit_unique(s, t, k);
        let p = fit_prefix(s, t);
        lemma_width_push(p, ellipsis());
        assert(p + seq![ellipsis()] =~= p.push(ellipsis()));
        assert(truncate_spec(s, width) == s.take(k as int).push(ellipsis()));
    }
}

proof fn lemma_filter_sub_multiset<A>(s: Seq<A>, pred: spec_fn(A) -> bool)
    ensures
        s.filter(pred).to_multiset().subset_of(s.to_multiset()),
    decreases s.len(),
{
    broadcast use vstd::seq_lib::group_to_multiset_ensures;

    if s.len() == 0 {
        assert(s.filter(pred) =~= Seq::<A>::empty());
    } else {
        let init = s.drop_last();
        lemma_filter_sub_multiset(init, pred);
        init.lemma_filter_push(s.last(), pred);
        assert(init.push(s.last()) =~= s);
        init.to_multiset_ensures();
        init.filter(pred).to_multiset_ensures();
    }
}

/// Law: a filtered listing lists only stickers of the full listing, each at
/// most as often, and so is no longer than it.
pub proof fn filtered_list_within_full_list(
    entries: Seq<(Seq<char>, StickerMetaView)>,
    filter: Seq<char>,
)
    ensures
        selected(entries, Some(filter)).to_multiset().subset_of(
            selected(entries, None).to_multiset(),
        ),
        selected(entries, Some(filter)).len() <= selected(entries, None).len(),
{
    let metas = entries.map_values(|e: (Seq<char>, StickerMetaView)| e.1);
    let pred = |m: StickerMetaView| list_selects(m, lowercase(filter));
    lemma_filter_sub_multiset(metas, pred);
    metas.lemma_filter_len(pred);
}

/// Law: the empty filter lists every sticker.
pub proof fn empty_filter_lists_everything(entries: Seq<(Seq<char>, StickerMetaView)>)
    ensures
        selected(entries, Some(Seq::<char>::empty())) == selected(entries, None),
{
    assert(lowercase(Seq::<char>::empty()) =~= Seq::<char>::empty());
    filter_with_empty_lowercase_lists_everything(entries, Seq::<char>::empty());
}

/// Law: a filter whose lowercase form is empty lists every sticker.
pub proof fn filter_with_empty_lowercase_lists_everything(
    entries: Seq<(Seq<char>, StickerMetaView)>,
    filter: Seq<char>,
)
    requires
        lowercase(filter).len() == 0,
    ensures
        selected(entries, Some(filter)) == selected(entries, None),
{
    let metas = entries.map_values(|e: (Seq<char>, StickerMetaView)| e.1);
    let lf = lowercase(filter);
    let pred = |m: StickerMetaView| list_selects(m, lf);
    assert forall|m: StickerMetaView| #[trigger] pred(m) by {
        assert(lowercase(m.filename).subrange(0, 0) =~= lf);
        assert(occurs_at(lf, lowercase(m.filename), 0));
    }
    lemma_filter_all(metas, pred);
}

/// Law: a keyword that is the key of an entry resolves to that entry's
/// sticker.
pub proof fn exact_key_resolves_to_its_entry(
    entries: Seq<(Seq<char>, StickerMetaView)>,
    i: int,
    r: Option<StickerMetaView>,
)
    requires
        keys_distinct(entries),
        0 <= i < entries.len(),
        resolves_to(entries, entries[i].0, r),
    ensures
        r == Some(entries[i].1),
{
    let kw = entries[i].0;
    assert(tier_matches(entries[i], kw, 1));
    assert(best_tier(entries, kw) == 1);
    let j = choose|j: int|
        0 <= j < entries.len() && tier_matches(#[trigger] entries[j], kw, 1) && r == Some(
            entries[j].1,
        );
    if j != i {
        assert(entries[i].0 != entries[j].0);
    }
}

proof fn lemma_contains_self(s: Seq<char>)
    ensures
        contains_seq(s, s),
{
    assert(s.subrange(0, s.len() as int) =~= s);
    assert(occurs_at(s, s, 0));
}

/// Law: a sticker found by its AI name, a tag or its description is also
/// listed by `list` filtered with the same keyword.
pub proof fn resolved_sticker_is_listed(
    entries: Seq<(Seq<char>, StickerMetaView)>,
    kw: Seq<char>,
    m: StickerMetaView,
)
    requires
        resolves_to(entries, kw, Some(m)),
        best_tier(entries, kw) != 1,
    ensures
        list_selects(m, lowercase(kw)),
{
    let t = best_tier(entries, kw);
    let i = choose|i: int|
        0 <= i < entries.len() && tier_matches(#[trigger] entries[i], kw, t) && Some(m) == Some(
            entries[i].1,
        );
    if t == 2 {
        assert(m.ai_name == kw);
        lemma_contains_self(lowercase(kw));
    }
}

proof fn lemma_split_concat(s: Seq<char>, sep: char, t: Seq<char>)
    ensures
        split_spec(s + seq![sep] + t, sep) == split_spec(s, sep) + split_spec(t, sep),
    decreases t.len(),
{
    if t.len() == 0 {
        assert(s + seq![sep] + t =~= s.push(sep));
        assert((s.push(sep)).drop_last() =~= s);
        assert(split_spec(s, sep).push(Seq::<char>::empty()) =~= split_spec(s, sep) + seq![
            Seq::<char>::empty(),
        ]);
    } else {
        let u = s + seq![sep] + t;
        lemma_split_concat(s, sep, t.drop_last());
        assert(u.drop_last() =~= s + seq![sep] + t.drop_last());
        assert(u.last() == t.last());
        lemma_split_nonempty(t.drop_last(), sep);
        let a = split_spec(s, sep);
        let b = split_spec(t.drop_last(), sep);
        if t.last() == sep {
            assert((a + b).push(Seq::<char>::empty()) =~= a + b.push(Seq::<char>::empty()));
        } else {
            assert((a + b).update((a + b).len() - 1, (a + b).last().push(t.last())) =~= a + b.update(
                b.len() - 1,
                b.last().push(t.last()),
            ));
        }
    }
}

proof fn lemma_split_no_sep(s: Seq<char>, sep: char)
    requires
        forall|i: int| 0 <= i < s.len() ==> s[i] != sep,
    ensures
        split_spec(s, sep) == seq![s],
    decreases s.len(),
{
    if s.len() > 0 {
        lemma_split_no_sep(s.drop_last(), sep);
        assert(s.drop_last().push(s.last()) =~= s);
        assert(seq![s.drop_last()].update(0, s.drop_last().push(s.last())) =~= seq![s]);
    } else {
        assert(s =~= Seq::<char>::empty());
    }
}

proof fn lemma_split_dec(n: nat)
    ensures
        split_spec(dec_seq(n), '.') == seq![dec_seq(n)],
{
    lemma_dec_seq_digits(n);
    lemma_split_no_sep(dec_seq(n), '.');
}

proof fn lemma_split_version(a: nat, b: nat, c: nat)
    ensures
        split_spec(dec_seq(a) + "."@ + dec_seq(b) + "."@ + dec_seq(c), '.') == seq![
            dec_seq(a),
            dec_seq(b),
            dec_seq(c),
        ],
{
    reveal_strlit(".");
    let da = dec_seq(a);
    let db = dec_seq(b);
    let dc = dec_seq(c);
    assert(da + "."@ + db + "."@ + dc =~= da + seq!['.'] + (db + seq!['.'] + dc));
    lemma_split_concat(da, '.', db + seq!['.'] + dc);
    lemma_split_concat(db, '.', dc);
    lemma_split_dec(a);
    lemma_split_dec(b);
    lemma_split_dec(c);
}

proof fn lemma_parse_three(a: nat, b: nat, c: nat)
    requires
        a <= u64::MAX,
        b <= u64::MAX,
        c <= u64::MAX,
    ensures
        parse_parts(seq![dec_seq(a), dec_seq(b), dec_seq(c)]) == Ok::<Seq<nat>, ParseUintError>(
            seq![a, b, c],
        ),
{
    let p = seq![dec_seq(a), dec_seq(b), dec_seq(c)];
    decimal_text_parses_back(a, u64::MAX as nat);
    decimal_text_parses_back(b, u64::MAX as nat);
    decimal_text_parses_back(c, u64::MAX as nat);
    let p2 = seq![dec_seq(a), dec_seq(b)];
    let p1 = seq![dec_seq(a)];
    let p0 = Seq::<Seq<char>>::empty();
    assert(p.drop_last() =~= p2);
    assert(p2.drop_last() =~= p1);
    assert(p1.drop_last() =~= p0);
    assert(parse_parts(p0) == Ok::<Seq<nat>, ParseUintError>(Seq::empty()));
    assert(parse_parts(p1) == Ok::<Seq<nat>, ParseUintError>(Seq::<nat>::empty().push(a)));
    assert(parse_parts(p2) == Ok::<Seq<nat>, ParseUintError>(Seq::<nat>::empty().push(a).push(b)));
    assert(parse_parts(p) == Ok::<Seq<nat>, ParseUintError>(Seq::<nat>::empty().push(a).push(b).push(c)));
    assert(Seq::<nat>::empty().push(a).push(b).push(c) =~= seq![a, b, c]);
}

/// Law: a bumped version reads back as three numbers: the bumped part one
/// higher, the parts before it unchanged, the parts after it zero.
pub proof fn bumped_version_reads_back(version: Seq<char>, level: Seq<char>, ns: Seq<nat>)
    requires
        parse_parts(split_spec(version, '.')) == Ok::<Seq<nat>, ParseUintError>(ns),
        ns.len() == 3,
        level == "major"@ || level == "minor"@ || level == "patch"@,
        level == "major"@ ==> ns[0] < u64::MAX,
        level == "minor"@ ==> ns[1] < u64::MAX,
        level == "patch"@ ==> ns[2] < u64::MAX,
        forall|k: int| 0 <= k < 3 ==> #[trigger] ns[k] <= u64::MAX,
    ensures
        bump_spec(version, level) matches Ok(s) && parse_parts(split_spec(s, '.')) == Ok::<
            Seq<nat>,
            ParseUintError,
        >(
            if level == "major"@ {
                seq![ns[0] + 1, 0, 0]
            } else if level == "minor"@ {
                seq![ns[0], ns[1] + 1, 0]
            } else {
                seq![ns[0], ns[1], ns[2] + 1]
            },
        ),
{
    reveal_strlit(".0.0");
    reveal_strlit(".0");
    reveal_strlit(".");
    reveal_strlit("0");
    assert(dec_seq(0) =~= seq!['0']);
    assert(".0.0"@ =~= "."@ + dec_seq(0) + "."@ + dec_seq(0));
    assert(".0"@ =~= "."@ + dec_seq(0));
    if level == "major"@ {
        let s = dec_seq(ns[0] + 1) + ".0.0"@;
        assert(s =~= dec_seq(ns[0] + 1) + "."@ + dec_seq(0) + "."@ + dec_seq(0));
        lemma_split_version(ns[0] + 1, 0, 0);
        lemma_parse_three(ns[0] + 1, 0, 0);
    } else if level == "minor"@ {
        let s = dec_seq(ns[0]) + "."@ + dec_seq(ns[1] + 1) + ".0"@;
        assert(s =~= dec_seq(ns[0]) + "."@ + dec_seq(ns[1] + 1) + "."@ + dec_seq(0));
        lemma_split_version(ns[0], ns[1] + 1, 0);
        lemma_parse_three(ns[0], ns[1] + 1, 0);
    } else {
        lemma_split_version(ns[0], ns[1], ns[2] + 1);
        lemma_parse_three(ns[0], ns[1], ns[2] + 1);
    }
}

proof fn lemma_hex_fixed_len(n: nat, k: nat)
    ensures
        hex_fixed(n, k).len() == k,
    decreases k,
{
    if k > 0 {
        lemma_hex_fixed_len(n / 16, (k - 1) as nat);
    }
}

/// Law: packs of different lengths never share a fingerprint.
pub proof fn fingerprint_distinguishes_lengths(a: Seq<u8>, b: Seq<u8>)
    requires
        a.len() != b.len(),
    ensures
        fingerprint_seq(a) != fingerprint_seq(b),
{
    lemma_hex_fixed_len(crate::assets::fnv1a(a) as nat, 16);
    lemma_hex_fixed_len(crate::assets::fnv1a(b) as nat, 16);
    if fingerprint_seq(a) == fingerprint_seq(b) {
        assert(fingerprint_seq(a).skip(17) =~= dec_seq(a.len()));
        assert(fingerprint_seq(b).skip(17) =~= dec_seq(b.len()));
        decimal_text_parses_back(a.len(), a.len() + b.len());
        decimal_text_parses_back(b.len(), a.len() + b.len());
    }
}

pub(crate) proof fn lemma_max_of_ge(ws: Seq<nat>, i: int)
    requires
        0 <= i < ws.len(),
    ensures
        ws[i] <= max_of(ws),
    decreases ws.len(),
{
    if i < ws.len() - 1 {
        lemma_max_of_ge(ws.drop_last(), i);
    }
}

proof fn lemma_padded_to_column(text: Seq<char>, ws: Seq<nat>, i: int, cap: nat)
    requires
        0 <= i < ws.len(),
        ws[i] == width_seq(text),
        cap >= 1,
    ensures
        width_seq(pad_right_spec(text, min_nat(max_of(ws), cap))) == min_nat(max_of(ws), cap),
{
    lemma_max_of_ge(ws, i);
    pad_right_width(text, min_nat(max_of(ws), cap));
}

/// Law: the table's columns line up: in every row, the file name, AI name and
/// tags are padded or cut to exactly their column's width.
pub proof fn table_columns_align(rows: Seq<RowView>, detail: bool, total_width: nat, i: int)
    requires
        0 <= i < rows.len(),
    ensures
        ({
            let c = columns_spec(rows, detail, total_width);
            &&& width_seq(pad_right_spec(rows[i].filename, c.fname)) == c.fname
            &&& width_seq(pad_right_spec(rows[i].ainame, c.ai)) == c.ai
            &&& width_seq(pad_right_spec(rows[i].tags, c.tags)) == c.tags
        }),
{
    let wf = rows.map_values(|r: RowView| width_seq(r.filename));
    let wa = rows.map_values(|r: RowView| width_seq(r.ainame));
    let wt = rows.map_values(|r: RowView| width_seq(r.tags));
    lemma_padded_to_column(rows[i].filename, wf, i, 46);
    lemma_padded_to_column(rows[i].ainame, wa, i, 28);
    lemma_padded_to_column(rows[i].tags, wt, i, 42);
}


/// Law: rewriting the version lines of a `Cargo.toml` text from the version
/// it records to `next` leaves a text that records `next`, when that version
/// is closed by its second `"` and `next` holds no `"`, no line break and no
/// `workspace`.
pub proof fn rewritten_manifest_records_next(content: Seq<char>, current: Seq<char>, next: Seq<char>)
    requires
        version_in_lines(lines_spec(content)) == Some(current),
        version_closed(lines_spec(content)),
        free_of(next, '"'),
        free_of(next, '\n'),
        !contains_seq(next, "workspace"@),
    ensures
        version_in_lines(lines_spec(rewrite_version_spec(content, current, next).0)) == Some(next),
{
    let lines = lines_spec(content);
    assert(content.len() > 0) by {
        if content.len() == 0 {
            assert(lines.len() == 0);
        }
    }
    lemma_lines_shape(content);
    let m = lines.map_values(|l: Seq<char>| bumped_line(l, current, next));
    lemma_bump_lines(lines, current, next);
    assert forall|i: int| 0 <= i < m.len() implies free_of(#[trigger] m[i], '\n') by {
        assert(free_of(lines[i], '\n'));
        lemma_bumped_line_shape(lines[i], current, next);
    }
    if content.last() != '\n' {
        assert(free_of(lines.last(), '\n'));
        lemma_bumped_line_shape(lines.last(), current, next);
        assert(m.last() == bumped_line(lines.last(), current, next));
    }
    lemma_lines_reassembled(m, content);
    let r = lines_spec(reassemble_spec(m, content));
    assert(rewrite_version_spec(content, current, next).0 == reassemble_spec(m, content));
    assert forall|i: int| 0 <= i < r.len() implies trim_seq(#[trigger] r[i]) == trim_seq(m[i]) by {
        if r[i] != m[i] {
            assert(is_ws('\r'));
            lemma_trim_drop_ws(m[i]);
        }
    }
    lemma_version_by_trim(r, m);
}


proof fn lemma_hex_fixed_solid(n: nat, k: nat)
    ensures
        forall|i: int| 0 <= i < hex_fixed(n, k).len() ==> !is_ws(#[trigger] hex_fixed(n, k)[i]),
    decreases k,
{
    if k > 0 {
        lemma_hex_fixed_solid(n / 16, (k - 1) as nat);
        let d = n % 16;
        assert(!is_ws(hex_digit(d)));
        assert forall|i: int| 0 <= i < hex_fixed(n, k).len() implies !is_ws(
            #[trigger] hex_fixed(n, k)[i],
        ) by {
            if i < hex_fixed(n / 16, (k - 1) as nat).len() {
                assert(hex_fixed(n, k)[i] == hex_fixed(n / 16, (k - 1) as nat)[i]);
            }
        }
    }
}

/// Law: a fingerprint is its own trimmed text, so a marker file that holds
/// the fingerprint of a non-empty pack (as written after unpacking it) makes
/// the next check answer `AlreadyCurrent`.
pub proof fn written_marker_reads_current(pack: Seq<u8>)
    requires
        pack.len() > 0,
    ensures
        trim_seq(fingerprint_seq(pack)) == fingerprint_seq(pack),
        check_current_spec(pack.len(), Some(fingerprint_seq(pack)), fingerprint_seq(pack))
            == Some(UnpackOutcome::AlreadyCurrent),
{
    let f = fingerprint_seq(pack);
    let h = hex_fixed(crate::assets::fnv1a(pack) as nat, 16);
    lemma_hex_fixed_len(crate::assets::fnv1a(pack) as nat, 16);
    lemma_hex_fixed_solid(crate::assets::fnv1a(pack) as nat, 16);
    lemma_dec_seq_digits(pack.len());
    assert(f[0] == h[0]);
    assert(!is_ws(f[0]));
    assert(trim_start_seq(f) == f);
    let d = dec_seq(pack.len());
    assert(f.last() == d.last());
    assert(!is_ws(f.last()));
    assert(trim_end_seq(f) == f);
}


/// Law: display width is the sum of the characters' widths: the empty text
/// takes no column, widths add up over concatenation, and text of `n`
/// characters takes between `n` and `2n` columns.
pub proof fn display_width_adds_up(a: Seq<char>, b: Seq<char>)
    ensures
        width_seq(Seq::<char>::empty()) == 0,
        width_seq(a + b) == width_seq(a) + width_seq(b),
        a.len() <= width_seq(a) <= 2 * a.len(),
    decreases a.len(),
{
    lemma_width_concat(a, b);
    lemma_width_le_twice(a);
    if a.len() > 0 {
        display_width_adds_up(a.drop_last(), b);
    }
}


/// `a` and `b` are ASCII texts that differ at most in the case of letters.
pub open spec fn same_up_to_ascii_case(a: Seq<char>, b: Seq<char>) -> bool {
    &&& is_ascii_text(a)
    &&& is_ascii_text(b)
    &&& a.len() == b.len()
    &&& forall|i: int| 0 <= i < a.len() ==> ascii_lower_char(#[trigger] a[i]) == ascii_lower_char(b[i])
}

proof fn lemma_same_case_lowercase(a: Seq<char>, b: Seq<char>)
    requires
        same_up_to_ascii_case(a, b),
    ensures
        lowercase(a) == lowercase(b),
{
    assert(a.map_values(|c: char| ascii_lower_char(c)) =~= b.map_values(|c: char| ascii_lower_char(c)));
}

/// Law: ASCII keywords that differ only in the case of letters match the
/// same tags and descriptions in `resolve`, and ASCII filters that differ
/// only in case make `list` select the same stickers.
pub proof fn ascii_case_is_ignored(
    entries: Seq<(Seq<char>, StickerMetaView)>,
    e: (Seq<char>, StickerMetaView),
    a: Seq<char>,
    b: Seq<char>,
)
    requires
        same_up_to_ascii_case(a, b),
    ensures
        tier_matches(e, a, 3) == tier_matches(e, b, 3),
        tier_matches(e, a, 4) == tier_matches(e, b, 4),
        selected(entries, Some(a)) == selected(entries, Some(b)),
{
    lemma_same_case_lowercase(a, b);
    assert((|m: StickerMetaView| list_selects(m, lowercase(a))) =~= (|m: StickerMetaView|
        list_selects(m, lowercase(b))));
}

/// Law: answers to the release prompt that differ only in the ASCII case of
/// letters are read alike (`Y` confirms as `y` does).
pub proof fn answers_ignore_ascii_case(a: Seq<char>, b: Seq<char>)
    requires
        same_up_to_ascii_case(a, b),
    ensures
        lowercase(trim_seq(a)) == lowercase(trim_seq(b)),
{
    assert forall|i: int| 0 <= i < a.len() implies is_ws(#[trigger] a[i]) == is_ws(b[i]) by {
        assert(ascii_lower_char(a[i]) == ascii_lower_char(b[i]));
    }
    let t = trim_seq(a);
    let k = lemma_trim_decompose(a);
    let w1 = b.take(k);
    let m = b.subrange(k, k + t.len());
    let w2 = b.skip(k + t.len());
    assert(all_ws(w1)) by {
        assert forall|j: int| 0 <= j < w1.len() implies is_ws(#[trigger] w1[j]) by {
            assert(a.take(k)[j] == a[j]);
        }
    }
    assert(all_ws(w2)) by {
        assert forall|j: int| 0 <= j < w2.len() implies is_ws(#[trigger] w2[j]) by {
            assert(a.skip(k + t.len())[j] == a[k + t.len() + j]);
        }
    }
    assert(solid(m)) by {
        if m.len() > 0 {
            assert(t[0] == a[k]);
            assert(t.last() == a[k + t.len() - 1]);
        }
    }
    assert(b =~= w1 + m + w2);
    lemma_trim_frame(w1, m, w2);
    assert(same_up_to_ascii_case(t, m)) by {
        assert forall|j: int| 0 <= j < t.len() implies ascii_lower_char(#[trigger] t[j])
            == ascii_lower_char(m[j]) && (t[j] as u32) < 128 && (m[j] as u32) < 128 by {
            assert(t[j] == a[k + j]);
            assert(m[j] == b[k + j]);
        }
    }
    lemma_same_case_lowercase(t, m);
}

} // verus!
