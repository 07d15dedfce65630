//! Display width of text in a monospace terminal, counting East Asian wide
//! characters as two columns, and padding or cutting text to a width.

use vstd::prelude::*;
use crate::text::{chars_of, string_from_chars};

verus! {

/// East Asian Wide / Fullwidth code points, approximated by ranges.
pub open spec fn is_wide(c: char) -> bool {
    let u = c as u32;
    ||| 0x1100 <= u <= 0x115F
    ||| 0x2E80 <= u <= 0x303E
    ||| 0x3041 <= u <= 0x33FF
    ||| 0x3400 <= u <= 0x4DBF
    ||| 0x4E00 <= u <= 0x9FFF
    ||| 0xA000 <= u <= 0xA4CF
    ||| 0xAC00 <= u <= 0xD7A3
    ||| 0xF900 <= u <= 0xFAFF
    ||| 0xFE30 <= u <= 0xFE4F
    ||| 0xFF00 <= u <= 0xFF60
    ||| 0xFFE0 <= u <= 0xFFE6
    ||| 0x20000 <= u <= 0x2FFFD
    ||| 0x30000 <= u <= 0x3FFFD
}

/// Columns taken by one character.
pub open spec fn char_width(c: char) -> nat {
    if is_wide(c) {
        2
    } else {
        1
    }
}

/// Columns taken by a string.
pub open spec fn width_seq(s: Seq<char>) -> nat
    decreases s.len(),
{
    if s.len() == 0 {
        0
    } else {
        width_seq(s.drop_last()) + char_width(s.last())
    }
}

/// The number of leading characters of `s` kept when cutting it to at most
/// `target` columns: the longest prefix that fits.
pub open spec fn is_fit_len(s: Seq<char>, target: nat, k: nat) -> bool {
    &&& k <= s.len()
    &&& width_seq(s.take(k as int)) <= target
    &&& (k == s.len() || width_seq(s.take((k + 1) as int)) > target)
}

/// The horizontal ellipsis `…` (one column).
pub open spec fn ellipsis() -> char {
    '\u{2026}'
}

/// A run of `n` spaces.
pub open spec fn spaces(n: nat) -> Seq<char> {
    Seq::new(n, |i: int| ' ')
}

/// `width` minus one, or zero.
pub open spec fn cut_target(width: nat) -> nat {
    if width == 0 {
        0
    } else {
        (width - 1) as nat
    }
}

/// The greedy cut of `s` to `target` columns.
pub open spec fn fit_prefix(s: Seq<char>, target: nat) -> Seq<char> {
    s.take((choose|k: nat| is_fit_len(s, target, k)) as int)
}

/// `pad_right`: text of exactly `width` columns when `s` fits; otherwise the
/// longest prefix that fits in `width - 1` columns, padded with spaces to
/// `width - 1` columns, and an ellipsis.
pub open spec fn pad_right_spec(s: Seq<char>, width: nat) -> Seq<char> {
    if width_seq(s) <= width {
        s + spaces((width - width_seq(s)) as nat)
    } else {
        let p = fit_prefix(s, cut_target(width));
        p + spaces((cut_target(width) - width_seq(p)) as nat) + seq![ellipsis()]
    }
}

/// `truncate_width`: `s` itself when it fits in `width` columns; otherwise the
/// longest prefix that fits in `width - 1` columns and an ellipsis.
pub open spec fn truncate_spec(s: Seq<char>, width: nat) -> Seq<char> {
    if width_seq(s) <= width {
        s
    } else {
        fit_prefix(s, cut_target(width)) + seq![ellipsis()]
    }
}

pub proof fn lemma_width_push(s: Seq<char>, c: char)
    ensures
        width_seq(s.push(c)) == width_seq(s) + char_width(c),
{
    assert(s.push(c).drop_last() =~= s);
}

pub proof fn lemma_width_concat(a: Seq<char>, b: Seq<char>)
    ensures
        width_seq(a + b) == width_seq(a) + width_seq(b),
    decreases b.len(),
{
    if b.len() == 0 {
        assert(a + b =~= a);
    } else {
        lemma_width_concat(a, b.drop_last());
        assert((a + b).drop_last() =~= a + b.drop_last());
    }
}

pub proof fn lemma_width_spaces(n: nat)
    ensures
        width_seq(spaces(n)) == n,
    decreases n,
{
    if n > 0 {
        lemma_width_spaces((n - 1) as nat);
        assert(spaces(n).drop_last() =~= spaces((n - 1) as nat));
    }
}

pub proof fn lemma_width_take_step(s: Seq<char>, k: int)
    requires
        0 <= k < s.len(),
    ensures
        width_seq(s.take(k + 1)) == width_seq(s.take(k)) + char_width(s[k]),
{
    assert(s.take(k + 1).drop_last() =~= s.take(k));
}

pub proof fn lemma_width_take_mono(s: Seq<char>, i: int, j: int)
    requires
        0 <= i <= j <= s.len(),
    ensures
        width_seq(s.take(i)) <= width_seq(s.take(j)),
    decreases j - i,
{
    if i < j {
        lemma_width_take_mono(s, i, j - 1);
        lemma_width_take_step(s, j - 1);
    }
}

/// The fitting length is unique, so `fit_prefix` is the prefix of that length.
pub proof fn lemma_fit_unique(s: Seq<char>, target: nat, k: nat)
    requires
        is_fit_len(s, target, k),
    ensures
        fit_prefix(s, target) == s.take(k as int),
{
    let k2 = choose|k2: nat| is_fit_len(s, target, k2);
    assert(is_fit_len(s, target, k2));
    if k2 < k {
        lemma_width_take_mono(s, (k2 + 1) as int, k as int);
    } else if k < k2 {
        lemma_width_take_mono(s, (k + 1) as int, k2 as int);
    }
}

/// Whether `c` is a wide character.
pub fn is_wide_char(c: char) -> (r: bool)
    ensures
        r == is_wide(c),
{
    let u = c as u32;
    (0x1100 <= u && u <= 0x115F) || (0x2E80 <= u && u <= 0x303E) || (0x3041 <= u && u <= 0x33FF)
        || (0x3400 <= u && u <= 0x4DBF) || (0x4E00 <= u && u <= 0x9FFF) || (0xA000 <= u && u
        <= 0xA4CF) || (0xAC00 <= u && u <= 0xD7A3) || (0xF900 <= u && u <= 0xFAFF) || (0xFE30
        <= u && u <= 0xFE4F) || (0xFF00 <= u && u <= 0xFF60) || (0xFFE0 <= u && u <= 0xFFE6) || (
    0x20000 <= u && u <= 0x2FFFD) || (0x30000 <= u && u <= 0x3FFFD)
}

fn char_cols(c: char) -> (r: usize)
    ensures
        r == char_width(c),
{
    if is_wide_char(c) {
        2
    } else {
        1
    }
}

/// Display width of a character vector.
pub fn width_of(s: &Vec<char>) -> (r: usize)
    requires
        width_seq(s@) <= usize::MAX,
    ensures
        r == width_seq(s@),
{
    let mut acc: usize = 0;
    let mut i: usize = 0;
    while i < s.len()
        invariant
            0 <= i <= s@.len(),
            acc == width_seq(s@.take(i as int)),
            width_seq(s@) <= usize::MAX,
        decreases s@.len() - i,
    {
        proof {
            lemma_width_take_step(s@, i as int);
            lemma_width_take_mono(s@, i + 1, s@.len() as int);
            assert(s@.take(s@.len() as int) =~= s@);
        }
        acc = acc + char_cols(s[i]);
        i = i + 1;
    }
    proof {
        assert(s@.take(s@.len() as int) =~= s@);
    }
    acc
}

/// Display width of a string, counting wide characters as two columns.
pub fn display_width(s: &str) -> (r: usize)
    requires
        width_seq(s@) <= usize::MAX,
    ensures
        r == width_seq(s@),
{
    width_of(&chars_of(s))
}

/// The longest prefix of `s` that fits in `target` columns.
fn fit_chars(s: &Vec<char>, target: usize) -> (r: Vec<char>)
    ensures
        r@ == fit_prefix(s@, target as nat),
        width_seq(r@) <= target,
{
    let mut acc: usize = 0;
    let mut out: Vec<char> = Vec::new();
    let mut i: usize = 0;
    while i < s.len()
        invariant_except_break
            0 <= i <= s@.len(),
            out@ == s@.take(i as int),
            acc == width_seq(out@),
            acc <= target,
        ensures
            0 <= i <= s@.len(),
            out@ == s@.take(i as int),
            acc == width_seq(out@),
            acc <= target,
            i == s@.len() || width_seq(s@.take(i + 1)) > target,
        decreases s@.len() - i,
    {
        let cw = char_cols(s[i]);
        proof {
            lemma_width_take_step(s@, i as int);
        }
        if cw > target - acc {
            break;
        }
        out.push(s[i]);
        acc = acc + cw;
        i = i + 1;
        proof {
            assert(out@ =~= s@.take(i as int));
        }
    }
    proof {
        assert(is_fit_len(s@, target as nat, i as nat));
        lemma_fit_unique(s@, target as nat, i as nat);
    }
    out
}

/// `pad_right` on a character vector.
pub fn pad_right_chars(s: &Vec<char>, width: usize) -> (r: Vec<char>)
    requires
        width_seq(s@) <= usize::MAX,
    ensures
        r@ == pad_right_spec(s@, width as nat),
{
    let w = width_of(s);
    if w <= width {
        let mut out = s.clone();
        let mut i: usize = 0;
        while i < width - w
            invariant
                w <= width,
                0 <= i <= width - w,
                out@ == s@ + spaces(i as nat),
            decreases width - w - i,
        {
            out.push(' ');
            i = i + 1;
            proof {
                assert(spaces(i as nat) =~= spaces((i - 1) as nat).push(' '));
                assert(out@ =~= s@ + spaces(i as nat));
            }
        }
        out
    } else {
        let target = width.saturating_sub(1);
        let mut out = fit_chars(s, target);
        let ghost p = out@;
        let mut cur = width_of(&out);
        let mut i: usize = 0;
        while cur < target
            invariant
                cur == width_seq(out@),
                cur <= target,
                p == fit_prefix(s@, target as nat),
                target as nat == cut_target(width as nat),
                width_seq(s@) > width,
                width_seq(p) <= target,
                cur == width_seq(p) + i,
                out@ == p + spaces(i as nat),
            decreases target - cur,
        {
            out.push(' ');
            proof {
                lemma_width_push(out@.drop_last(), ' ');
                assert(out@.drop_last() =~= p + spaces(i as nat));
                assert(spaces((i + 1) as nat) =~= spaces(i as nat).push(' '));
            }
            i = i + 1;
            cur = cur + 1;
            proof {
                assert(out@ =~= p + spaces(i as nat));
            }
        }
        out.push('\u{2026}');
        proof {
            assert(out@ =~= pad_right_spec(s@, width as nat));
        }
        out
    }
}

/// Pads `s` on the right with spaces to display width `width`; text that is
/// already wider is cut and ends in an ellipsis.
pub fn pad_right(s: &str, width: usize) -> (r: String)
    requires
        width_seq(s@) <= usize::MAX,
    ensures
        r@ == pad_right_spec(s@, width as nat),
{
    let cs = chars_of(s);
    string_from_chars(&pad_right_chars(&cs, width))
}

/// `truncate_width` on a character vector.
pub fn truncate_chars(s: &Vec<char>, width: usize) -> (r: Vec<char>)
    requires
        width_seq(s@) <= usize::MAX,
    ensures
        r@ == truncate_spec(s@, width as nat),
{
    if width_of(s) <= width {
        return s.clone();
    }
    let target = width.saturating_sub(1);
    let mut out = fit_chars(s, target);
    out.push('\u{2026}');
    out
}

/// Cuts `s` to display width `width`, ending in an ellipsis when it was cut.
pub fn truncate_width(s: &str, width: usize) -> (r: String)
    requires
        width_seq(s@) <= usize::MAX,
    ensures
        r@ == truncate_spec(s@, width as nat),
{
    let cs = chars_of(s);
    string_from_chars(&truncate_chars(&cs, width))
}

/// Law: padding gives text exactly `width` columns wide, except that text
/// cut to a width of zero still shows its ellipsis.
pub proof fn pad_right_width(s: Seq<char>, width: nat)
    ensures
        width_seq(pad_right_spec(s, width)) == if width_seq(s) > width && width == 0 {
            1
        } else {
            width
        },
{
    lemma_width_spaces((width - width_seq(s)) as nat);
    if width_seq(s) <= width {
        lemma_width_concat(s, spaces((width - width_seq(s)) as nat));
    } else {
        let t = cut_target(width);
        lemma_fit_exists(s, t, 0);
        let k = choose|k: nat| is_fit_len(s, t, k);
        let p = fit_prefix(s, t);
        assert(p == s.take(k as int));
        let sp = spaces((t - width_seq(p)) as nat);
        lemma_width_spaces((t - width_seq(p)) as nat);
        lemma_width_concat(p, sp);
        lemma_width_push(p + sp, ellipsis());
        assert(p + sp + seq![ellipsis()] =~= (p + sp).push(ellipsis()));
    }
}

/// Some prefix length fits: the scan from `i` on finds one.
pub proof fn lemma_fit_exists(s: Seq<char>, target: nat, i: nat)
    requires
        i <= s.len(),
        width_seq(s.take(i as int)) <= target,
    ensures
        exists|k: nat| is_fit_len(s, target, k),
    decreases s.len() - i,
{
    if i == s.len() {
        assert(is_fit_len(s, target, i));
    } else if width_seq(s.take((i + 1) as int)) > target {
        assert(is_fit_len(s, target, i));
    } else {
        lemma_fit_exists(s, target, i + 1);
    }
}

} // verus!
