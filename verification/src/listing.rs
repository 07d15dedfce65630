//! The sticker table that `xbark list` prints: the choice of language for
//! each field, column widths, padding, and the lines themselves.
//!
//! Fetching the listing from the daemon, reading the locale and the terminal
//! width, and printing are done by the caller.

use vstd::prelude::*;
use crate::num::{dec_chars, dec_seq};
use crate::text::{
    chars_of, is_prefix_of, lowercase, push_chars, push_repeat, push_str_chars,
    starts_with_chars, string_from_chars, to_lowercase,
};
use crate::width::{
    pad_right_chars, pad_right_spec, truncate_chars, truncate_spec, width_of, width_seq,
};

verus! {

/// Display language preference.
#[derive(Debug, Clone, Copy, PartialEq, Eq, Structural)]
pub enum Lang {
    Zh,
    En,
    Both,
}

/// The `--lang` value that selects the locale.
pub open spec fn lang_from_locale(locale: Seq<char>) -> Lang {
    if is_prefix_of("zh"@, lowercase(locale)) {
        Lang::Zh
    } else {
        Lang::En
    }
}

/// `--lang` resolution: `zh`, `en` and `both` select themselves; `auto`, the
/// empty value and any other value follow the locale (`zh…` in any case means
/// Chinese). The flag tells whether the value was unknown (the caller warns).
pub open spec fn resolve_lang_spec(arg: Seq<char>, locale: Seq<char>) -> (Lang, bool) {
    if arg == "zh"@ {
        (Lang::Zh, false)
    } else if arg == "en"@ {
        (Lang::En, false)
    } else if arg == "both"@ {
        (Lang::Both, false)
    } else if arg == "auto"@ || arg.len() == 0 {
        (lang_from_locale(locale), false)
    } else {
        (lang_from_locale(locale), true)
    }
}

fn eq_lit(a: &Vec<char>, lit: &str) -> (r: bool)
    ensures
        r == (a@ == lit@),
{
    crate::text::chars_eq(a, &chars_of(lit))
}

/// Resolves the `--lang` argument; `locale` is the first of `LC_ALL`,
/// `LC_MESSAGES`, `LANG` that is set, or empty.
pub fn resolve_lang(arg: &str, locale: &str) -> (r: (Lang, bool))
    ensures
        r == resolve_lang_spec(arg@, locale@),
{
    let a = chars_of(arg);
    if eq_lit(&a, "zh") {
        return (Lang::Zh, false);
    }
    if eq_lit(&a, "en") {
        return (Lang::En, false);
    }
    if eq_lit(&a, "both") {
        return (Lang::Both, false);
    }
    let l = to_lowercase(locale);
    let zh = chars_of("zh");
    let lang = if starts_with_chars(&chars_of(l.as_str()), &zh) {
        Lang::Zh
    } else {
        Lang::En
    };
    let unknown = !(eq_lit(&a, "auto") || a.len() == 0);
    (lang, unknown)
}

/// The name of a language mode as printed in the footer.
pub open spec fn lang_name(lang: Lang) -> Seq<char> {
    match lang {
        Lang::Zh => "zh"@,
        Lang::En => "en"@,
        Lang::Both => "both"@,
    }
}

/// A text field of a listed sticker: a bare string (older packs), or an
/// `{en, zh}` pair whose missing or non-string members read as empty.
#[derive(Debug, Clone)]
pub enum TextField {
    Plain(String),
    Localized { en: String, zh: String },
}

/// The tags of a listed sticker: a bare list, or an `{en, zh}` pair of lists;
/// only string members are kept.
#[derive(Debug, Clone)]
pub enum TagsField {
    Plain(Vec<String>),
    Localized { en: Vec<String>, zh: Vec<String> },
}

/// One sticker as the daemon lists it.
#[derive(Debug, Clone)]
pub struct ListItem {
    pub filename: String,
    pub ai_name: TextField,
    pub tags: TagsField,
    pub description: TextField,
}

pub enum TextFieldView {
    Plain(Seq<char>),
    Localized { en: Seq<char>, zh: Seq<char> },
}

pub enum TagsFieldView {
    Plain(Seq<Seq<char>>),
    Localized { en: Seq<Seq<char>>, zh: Seq<Seq<char>> },
}

pub struct ListItemView {
    pub filename: Seq<char>,
    pub ai_name: TextFieldView,
    pub tags: TagsFieldView,
    pub description: TextFieldView,
}

pub open spec fn strings_view(v: Seq<String>) -> Seq<Seq<char>> {
    v.map_values(|s: String| s@)
}

impl View for TextField {
    type V = TextFieldView;

    open spec fn view(&self) -> TextFieldView {
        match self {
            TextField::Plain(s) => TextFieldView::Plain(s@),
            TextField::Localized { en, zh } => TextFieldView::Localized { en: en@, zh: zh@ },
        }
    }
}

impl View for TagsField {
    type V = TagsFieldView;

    open spec fn view(&self) -> TagsFieldView {
        match self {
            TagsField::Plain(l) => TagsFieldView::Plain(strings_view(l@)),
            TagsField::Localized { en, zh } => TagsFieldView::Localized {
                en: strings_view(en@),
                zh: strings_view(zh@),
            },
        }
    }
}

impl View for ListItem {
    type V = ListItemView;

    open spec fn view(&self) -> ListItemView {
        ListItemView {
            filename: self.filename@,
            ai_name: self.ai_name@,
            tags: self.tags@,
            description: self.description@,
        }
    }
}

/// The text of a field in the preferred language, falling back to the other
/// one when it is empty; `Both` shows `en / zh` when both are present.
pub open spec fn pick_spec(f: TextFieldView, lang: Lang) -> Seq<char> {
    match f {
        TextFieldView::Plain(s) => s,
        TextFieldView::Localized { en, zh } => match lang {
            Lang::Zh => if zh.len() > 0 {
                zh
            } else {
                en
            },
            Lang::En => if en.len() > 0 {
                en
            } else {
                zh
            },
            Lang::Both => if en.len() > 0 && zh.len() > 0 {
                en + " / "@ + zh
            } else if en.len() > 0 {
                en
            } else {
                zh
            },
        },
    }
}

/// The tags to show: the preferred language's list, falling back to the
/// other when it is empty; `Both` shows the English tags then the Chinese.
pub open spec fn tag_list_spec(f: TagsFieldView, lang: Lang) -> Seq<Seq<char>> {
    match f {
        TagsFieldView::Plain(l) => l,
        TagsFieldView::Localized { en, zh } => match lang {
            Lang::Zh => if zh.len() > 0 {
                zh
            } else {
                en
            },
            Lang::En => if en.len() > 0 {
                en
            } else {
                zh
            },
            Lang::Both => en + zh,
        },
    }
}

/// The strings of `list` joined with `sep` between them.
pub open spec fn join_spec(list: Seq<Seq<char>>, sep: Seq<char>) -> Seq<char>
    decreases list.len(),
{
    if list.len() == 0 {
        Seq::empty()
    } else if list.len() == 1 {
        list[0]
    } else {
        join_spec(list.drop_last(), sep) + sep + list.last()
    }
}

/// The tags column text: the chosen tags joined with commas.
pub open spec fn pick_tags_spec(f: TagsFieldView, lang: Lang) -> Seq<char> {
    join_spec(tag_list_spec(f, lang), ","@)
}

/// One table row before layout.
pub struct RowView {
    pub filename: Seq<char>,
    pub ainame: Seq<char>,
    pub tags: Seq<char>,
    pub description: Seq<char>,
}

pub open spec fn row_spec(item: ListItemView, lang: Lang) -> RowView {
    RowView {
        filename: item.filename,
        ainame: pick_spec(item.ai_name, lang),
        tags: pick_tags_spec(item.tags, lang),
        description: pick_spec(item.description, lang),
    }
}

/// The largest value of `ws`, or zero.
pub open spec fn max_of(ws: Seq<nat>) -> nat
    decreases ws.len(),
{
    if ws.len() == 0 {
        0
    } else {
        let m = max_of(ws.drop_last());
        if ws.last() > m {
            ws.last()
        } else {
            m
        }
    }
}

pub open spec fn min_nat(a: nat, b: nat) -> nat {
    if a < b {
        a
    } else {
        b
    }
}

/// Column widths: file name, AI name, tags (each capped), description.
pub struct Columns {
    pub fname: nat,
    pub ai: nat,
    pub tags: nat,
    pub desc: nat,
}

pub open spec fn columns_spec(rows: Seq<RowView>, detail: bool, total_width: nat) -> Columns {
    let cf = min_nat(max_of(rows.map_values(|r: RowView| width_seq(r.filename))), 46);
    let ca = min_nat(max_of(rows.map_values(|r: RowView| width_seq(r.ainame))), 28);
    let ct = min_nat(max_of(rows.map_values(|r: RowView| width_seq(r.tags))), 42);
    let fixed = cf + 2 + ca + 2 + ct;
    let cd: nat = if detail {
        let rest: nat = if total_width > fixed + 2 {
            (total_width - (fixed + 2)) as nat
        } else {
            0
        };
        if rest > 20 {
            rest
        } else {
            20
        }
    } else {
        0
    };
    Columns { fname: cf, ai: ca, tags: ct, desc: cd }
}

pub open spec fn spacer() -> Seq<char> {
    "  "@
}

pub open spec fn rule(n: nat) -> Seq<char> {
    Seq::new(n, |i: int| '\u{2500}')
}

pub open spec fn header_spec(c: Columns, detail: bool) -> Seq<char> {
    let h = pad_right_spec("FILENAME"@, c.fname) + spacer() + pad_right_spec("AINAME"@, c.ai)
        + spacer() + pad_right_spec("TAGS"@, c.tags);
    "\x1b[1m"@ + (if detail {
        h + spacer() + "DESCRIPTION"@
    } else {
        h
    }) + "\x1b[0m"@
}

pub open spec fn separator_spec(c: Columns, detail: bool) -> Seq<char> {
    let s = rule(c.fname) + spacer() + rule(c.ai) + spacer() + rule(c.tags);
    "\x1b[2m"@ + (if detail {
        s + spacer() + rule(c.desc)
    } else {
        s
    }) + "\x1b[0m"@
}

pub open spec fn row_line_spec(r: RowView, c: Columns, detail: bool) -> Seq<char> {
    let l = pad_right_spec(r.filename, c.fname) + spacer() + pad_right_spec(r.ainame, c.ai)
        + spacer() + pad_right_spec(r.tags, c.tags);
    if detail && c.desc > 0 {
        l + spacer() + truncate_spec(r.description, c.desc)
    } else {
        l
    }
}

pub open spec fn footer_spec(n: nat, lang: Lang) -> Seq<char> {
    "\x1b[2m"@ + dec_seq(n) + " stickers \u{b7} lang="@ + lang_name(lang)
        + " \u{b7} tip: --lang <zh|en|both>, --detail for descriptions\x1b[0m"@
}

/// The lines that `xbark list` prints for `items`.
pub open spec fn listing_spec(
    items: Seq<ListItemView>,
    lang: Lang,
    detail: bool,
    total_width: nat,
) -> Seq<Seq<char>> {
    if items.len() == 0 {
        seq!["(no stickers found)"@]
    } else {
        let rows = items.map_values(|i: ListItemView| row_spec(i, lang));
        let c = columns_spec(rows, detail, total_width);
        seq![header_spec(c, detail), separator_spec(c, detail)] + rows.map_values(
            |r: RowView| row_line_spec(r, c, detail),
        ) + seq![Seq::<char>::empty(), footer_spec(items.len(), lang)]
    }
}

/// Every row's texts have a display width that a `usize` can count.
pub open spec fn listing_fits(items: Seq<ListItemView>, lang: Lang) -> bool {
    forall|i: int|
        0 <= i < items.len() ==> {
            let r = #[trigger] row_spec(items[i], lang);
            &&& width_seq(r.filename) <= usize::MAX
            &&& width_seq(r.ainame) <= usize::MAX
            &&& width_seq(r.tags) <= usize::MAX
            &&& width_seq(r.description) <= usize::MAX
        }
}

/// The text of a field in the chosen language.
pub fn pick(f: &TextField, lang: Lang) -> (r: Vec<char>)
    ensures
        r@ == pick_spec(f@, lang),
{
    match f {
        TextField::Plain(s) => chars_of(s.as_str()),
        TextField::Localized { en, zh } => {
            let e = chars_of(en.as_str());
            let z = chars_of(zh.as_str());
            match lang {
                Lang::Zh => if z.len() > 0 {
                    z
                } else {
                    e
                },
                Lang::En => if e.len() > 0 {
                    e
                } else {
                    z
                },
                Lang::Both => if e.len() > 0 && z.len() > 0 {
                    let mut out = e;
                    push_str_chars(&mut out, " / ");
                    push_chars(&mut out, &z);
                    out
                } else if e.len() > 0 {
                    e
                } else {
                    z
                },
            }
        },
    }
}

/// The strings of `list`, joined by `sep`, appended to `out`.
fn push_joined(out: &mut Vec<char>, list: &Vec<String>, sep: &str)
    ensures
        final(out)@ == old(out)@ + join_spec(strings_view(list@), sep@),
{
    let ghost lv = strings_view(list@);
    let mut i: usize = 0;
    let ghost base = out@;
    while i < list.len()
        invariant
            0 <= i <= list@.len(),
            lv == strings_view(list@),
            out@ == base + join_spec(lv.take(i as int), sep@),
        decreases list@.len() - i,
    {
        proof {
            assert(lv.take(i + 1).drop_last() =~= lv.take(i as int));
            assert(lv.take(i + 1).last() == list@[i as int]@);
        }
        if i != 0 {
            push_str_chars(out, sep);
        } else {
            proof {
                assert(join_spec(lv.take(0), sep@) =~= Seq::<char>::empty());
            }
        }
        push_str_chars(out, list[i].as_str());
        i = i + 1;
        proof {
            assert(out@ =~= base + join_spec(lv.take(i as int), sep@));
        }
    }
    proof {
        assert(lv.take(list@.len() as int) =~= lv);
    }
}

/// The tags column text.
pub fn pick_tags(f: &TagsField, lang: Lang) -> (r: Vec<char>)
    ensures
        r@ == pick_tags_spec(f@, lang),
{
    let mut out: Vec<char> = Vec::new();
    match f {
        TagsField::Plain(l) => {
            push_joined(&mut out, l, ",");
        },
        TagsField::Localized { en, zh } => match lang {
            Lang::Zh => if zh.len() > 0 {
                push_joined(&mut out, zh, ",")
            } else {
                push_joined(&mut out, en, ",")
            },
            Lang::En => if en.len() > 0 {
                push_joined(&mut out, en, ",")
            } else {
                push_joined(&mut out, zh, ",")
            },
            Lang::Both => {
                let mut all: Vec<String> = crate::resolver::copy_strings(en);
                let mut i: usize = 0;
                while i < zh.len()
                    invariant
                        0 <= i <= zh@.len(),
                        all@ == en@ + zh@.take(i as int),
                    decreases zh@.len() - i,
                {
                    all.push(zh[i].clone());
                    i = i + 1;
                    proof {
                        assert(all@ =~= en@ + zh@.take(i as int));
                    }
                }
                proof {
                    assert(zh@.take(zh@.len() as int) =~= zh@);
                    assert(strings_view(all@) =~= strings_view(en@) + strings_view(zh@));
                }
                push_joined(&mut out, &all, ",");
            },
        },
    }
    proof {
        assert(out@ =~= pick_tags_spec(f@, lang));
    }
    out
}

/// A row's texts, laid out for the table.
pub struct Row {
    pub filename: Vec<char>,
    pub ainame: Vec<char>,
    pub tags: Vec<char>,
    pub description: Vec<char>,
}

impl View for Row {
    type V = RowView;

    open spec fn view(&self) -> RowView {
        RowView {
            filename: self.filename@,
            ainame: self.ainame@,
            tags: self.tags@,
            description: self.description@,
        }
    }
}

/// The row for one listed sticker.
pub fn make_row(item: &ListItem, lang: Lang) -> (r: Row)
    ensures
        r@ == row_spec(item@, lang),
{
    Row {
        filename: chars_of(item.filename.as_str()),
        ainame: pick(&item.ai_name, lang),
        tags: pick_tags(&item.tags, lang),
        description: pick(&item.description, lang),
    }
}

proof fn lemma_max_of_push(ws: Seq<nat>, w: nat)
    ensures
        max_of(ws.push(w)) == if w > max_of(ws) {
            w
        } else {
            max_of(ws)
        },
{
    assert(ws.push(w).drop_last() =~= ws);
}

/// Column widths for `rows`.
fn columns(rows: &Vec<Row>, detail: bool, total_width: usize) -> (r: (usize, usize, usize, usize))
    requires
        forall|i: int|
            0 <= i < rows@.len() ==> {
                &&& width_seq(#[trigger] rows@[i]@.filename) <= usize::MAX
                &&& width_seq(rows@[i]@.ainame) <= usize::MAX
                &&& width_seq(rows@[i]@.tags) <= usize::MAX
            },
    ensures
        ({
            let c = columns_spec(rows@.map_values(|r: Row| r@), detail, total_width as nat);
            r.0 == c.fname && r.1 == c.ai && r.2 == c.tags && r.3 == c.desc
        }),
{
    let ghost rv = rows@.map_values(|r: Row| r@);
    let mut mf: usize = 0;
    let mut ma: usize = 0;
    let mut mt: usize = 0;
    let mut i: usize = 0;
    while i < rows.len()
        invariant
            0 <= i <= rows@.len(),
            rv == rows@.map_values(|r: Row| r@),
            forall|i: int|
                0 <= i < rows@.len() ==> {
                    &&& width_seq(#[trigger] rows@[i]@.filename) <= usize::MAX
                    &&& width_seq(rows@[i]@.ainame) <= usize::MAX
                    &&& width_seq(rows@[i]@.tags) <= usize::MAX
                },
            mf == max_of(rv.take(i as int).map_values(|r: RowView| width_seq(r.filename))),
            ma == max_of(rv.take(i as int).map_values(|r: RowView| width_seq(r.ainame))),
            mt == max_of(rv.take(i as int).map_values(|r: RowView| width_seq(r.tags))),
        decreases rows@.len() - i,
    {
        let r = &rows[i];
        proof {
            assert(rows@[i as int] == *r);
            assert(width_seq(rows@[i as int]@.filename) <= usize::MAX);
        }
        let wf = width_of(&r.filename);
        let wa = width_of(&r.ainame);
        let wt = width_of(&r.tags);
        proof {
            assert(rv.take(i + 1) =~= rv.take(i as int).push(r@));
            let t = rv.take(i as int);
            assert(rv.take(i + 1).map_values(|r: RowView| width_seq(r.filename)) =~= t.map_values(
                |r: RowView| width_seq(r.filename),
            ).push(width_seq(r@.filename)));
            assert(rv.take(i + 1).map_values(|r: RowView| width_seq(r.ainame)) =~= t.map_values(
                |r: RowView| width_seq(r.ainame),
            ).push(width_seq(r@.ainame)));
            assert(rv.take(i + 1).map_values(|r: RowView| width_seq(r.tags)) =~= t.map_values(
                |r: RowView| width_seq(r.tags),
            ).push(width_seq(r@.tags)));
            lemma_max_of_push(t.map_values(|r: RowView| width_seq(r.filename)), width_seq(r@.filename));
            lemma_max_of_push(t.map_values(|r: RowView| width_seq(r.ainame)), width_seq(r@.ainame));
            lemma_max_of_push(t.map_values(|r: RowView| width_seq(r.tags)), width_seq(r@.tags));
        }
        if wf > mf {
            mf = wf;
        }
        if wa > ma {
            ma = wa;
        }
        if wt > mt {
            mt = wt;
        }
        i = i + 1;
    }
    proof {
        assert(rv.take(i as int) =~= rv);
    }
    let cf = if mf < 46 { mf } else { 46 };
    let ca = if ma < 28 { ma } else { 28 };
    let ct = if mt < 42 { mt } else { 42 };
    let fixed = cf + 2 + ca + 2 + ct;
    let cd = if detail {
        let rest = total_width.saturating_sub(fixed + 2);
        if rest > 20 { rest } else { 20 }
    } else {
        0
    };
    (cf, ca, ct, cd)
}

fn finish_line(v: &Vec<char>) -> (r: String)
    ensures
        r@ == v@,
{
    string_from_chars(v)
}

fn wrap_style(open: &str, body: &Vec<char>) -> (r: Vec<char>)
    ensures
        r@ == open@ + body@ + "\x1b[0m"@,
{
    let mut out = chars_of(open);
    push_chars(&mut out, body);
    push_str_chars(&mut out, "\x1b[0m");
    out
}

/// Pads a literal label.
fn pad_label(label: &str, width: usize) -> (r: Vec<char>)
    requires
        label@.len() <= 16,
    ensures
        r@ == pad_right_spec(label@, width as nat),
{
    let l = chars_of(label);
    proof {
        lemma_width_le_twice(l@);
    }
    pad_right_chars(&l, width)
}

pub proof fn lemma_width_le_twice(s: Seq<char>)
    ensures
        width_seq(s) <= 2 * s.len(),
    decreases s.len(),
{
    if s.len() > 0 {
        lemma_width_le_twice(s.drop_last());
    }
}

fn header_line(cf: usize, ca: usize, ct: usize, cd: usize, detail: bool) -> (r: Vec<char>)
    ensures
        r@ == header_spec(Columns { fname: cf as nat, ai: ca as nat, tags: ct as nat, desc: cd as nat }, detail),
{
    proof {
        reveal_strlit("FILENAME");
        reveal_strlit("AINAME");
        reveal_strlit("TAGS");
    }
    let mut h = pad_label("FILENAME", cf);
    push_str_chars(&mut h, "  ");
    push_chars(&mut h, &pad_label("AINAME", ca));
    push_str_chars(&mut h, "  ");
    push_chars(&mut h, &pad_label("TAGS", ct));
    if detail {
        push_str_chars(&mut h, "  ");
        push_str_chars(&mut h, "DESCRIPTION");
    }
    wrap_style("\x1b[1m", &h)
}

fn separator_line(cf: usize, ca: usize, ct: usize, cd: usize, detail: bool) -> (r: Vec<char>)
    ensures
        r@ == separator_spec(Columns { fname: cf as nat, ai: ca as nat, tags: ct as nat, desc: cd as nat }, detail),
{
    let mut s: Vec<char> = Vec::new();
    push_repeat(&mut s, '\u{2500}', cf);
    push_str_chars(&mut s, "  ");
    push_repeat(&mut s, '\u{2500}', ca);
    push_str_chars(&mut s, "  ");
    push_repeat(&mut s, '\u{2500}', ct);
    if detail {
        push_str_chars(&mut s, "  ");
        push_repeat(&mut s, '\u{2500}', cd);
    }
    proof {
        assert(Seq::<char>::empty() + rule(cf as nat) =~= rule(cf as nat));
    }
    wrap_style("\x1b[2m", &s)
}

fn row_line(r: &Row, cf: usize, ca: usize, ct: usize, cd: usize, detail: bool) -> (out: Vec<char>)
    requires
        width_seq(r@.filename) <= usize::MAX,
        width_seq(r@.ainame) <= usize::MAX,
        width_seq(r@.tags) <= usize::MAX,
        width_seq(r@.description) <= usize::MAX,
    ensures
        out@ == row_line_spec(r@, Columns { fname: cf as nat, ai: ca as nat, tags: ct as nat, desc: cd as nat }, detail),
{
    let mut l = pad_right_chars(&r.filename, cf);
    push_str_chars(&mut l, "  ");
    push_chars(&mut l, &pad_right_chars(&r.ainame, ca));
    push_str_chars(&mut l, "  ");
    push_chars(&mut l, &pad_right_chars(&r.tags, ct));
    if detail && cd > 0 {
        push_str_chars(&mut l, "  ");
        push_chars(&mut l, &truncate_chars(&r.description, cd));
    }
    l
}

fn footer_line(n: usize, lang: Lang) -> (r: Vec<char>)
    ensures
        r@ == footer_spec(n as nat, lang),
{
    let mut f = chars_of("\x1b[2m");
    push_chars(&mut f, &dec_chars(n as u64));
    push_str_chars(&mut f, " stickers \u{b7} lang=");
    match lang {
        Lang::Zh => push_str_chars(&mut f, "zh"),
        Lang::En => push_str_chars(&mut f, "en"),
        Lang::Both => push_str_chars(&mut f, "both"),
    }
    push_str_chars(&mut f, " \u{b7} tip: --lang <zh|en|both>, --detail for descriptions\x1b[0m");
    f
}

/// The lines of the sticker table (`xbark list`), for the listed `items`,
/// the language, whether descriptions are shown, and the terminal width.
pub fn listing_lines(items: &Vec<ListItem>, lang: Lang, detail: bool, total_width: usize) -> (r: Vec<
    String,
>)
    requires
        listing_fits(items@.map_values(|i: ListItem| i@), lang),
    ensures
        strings_view(r@) == listing_spec(
            items@.map_values(|i: ListItem| i@),
            lang,
            detail,
            total_width as nat,
        ),
{
    let ghost iv = items@.map_values(|i: ListItem| i@);
    let mut lines: Vec<String> = Vec::new();
    if items.len() == 0 {
        lines.push(string_from_chars(&chars_of("(no stickers found)")));
        proof {
            assert(strings_view(lines@) =~= listing_spec(iv, lang, detail, total_width as nat));
        }
        return lines;
    }
    let mut rows: Vec<Row> = Vec::new();
    let mut i: usize = 0;
    while i < items.len()
        invariant
            0 <= i <= items@.len(),
            iv == items@.map_values(|i: ListItem| i@),
            rows@.map_values(|r: Row| r@) == iv.take(i as int).map_values(
                |i: ListItemView| row_spec(i, lang),
            ),
        decreases items@.len() - i,
    {
        let row = make_row(&items[i], lang);
        proof {
            assert(iv[i as int] == items@[i as int]@);
            assert(iv.take(i + 1) =~= iv.take(i as int).push(iv[i as int]));
            assert(iv.take(i + 1).map_values(|i: ListItemView| row_spec(i, lang)) =~= iv.take(
                i as int,
            ).map_values(|i: ListItemView| row_spec(i, lang)).push(row_spec(iv[i as int], lang)));
        }
        rows.push(row);
        i = i + 1;
        proof {
            assert(rows@.map_values(|r: Row| r@) =~= iv.take(i as int).map_values(
                |i: ListItemView| row_spec(i, lang),
            ));
        }
    }
    let ghost rv = iv.map_values(|i: ListItemView| row_spec(i, lang));
    proof {
        assert(iv.take(i as int) =~= iv);
        assert(rows@.map_values(|r: Row| r@) == rv);
        assert forall|k: int| 0 <= k < rows@.len() implies {
            &&& width_seq(#[trigger] rows@[k]@.filename) <= usize::MAX
            &&& width_seq(rows@[k]@.ainame) <= usize::MAX
            &&& width_seq(rows@[k]@.tags) <= usize::MAX
            &&& width_seq(rows@[k]@.description) <= usize::MAX
        } by {
            assert(rows@[k]@ == rv[k]);
            assert(rv[k] == row_spec(iv[k], lang));
        }
    }
    let (cf, ca, ct, cd) = columns(&rows, detail, total_width);
    let ghost c = Columns { fname: cf as nat, ai: ca as nat, tags: ct as nat, desc: cd as nat };
    lines.push(finish_line(&header_line(cf, ca, ct, cd, detail)));
    lines.push(finish_line(&separator_line(cf, ca, ct, cd, detail)));
    let mut k: usize = 0;
    while k < rows.len()
        invariant
            0 <= k <= rows@.len(),
            rows@.len() == iv.len(),
            rows@.map_values(|r: Row| r@) == rv,
            c == (Columns { fname: cf as nat, ai: ca as nat, tags: ct as nat, desc: cd as nat }),
            forall|k: int|
                0 <= k < rows@.len() ==> {
                    &&& width_seq(#[trigger] rows@[k]@.filename) <= usize::MAX
                    &&& width_seq(rows@[k]@.ainame) <= usize::MAX
                    &&& width_seq(rows@[k]@.tags) <= usize::MAX
                    &&& width_seq(rows@[k]@.description) <= usize::MAX
                },
            strings_view(lines@) == seq![header_spec(c, detail), separator_spec(c, detail)]
                + rv.take(k as int).map_values(|r: RowView| row_line_spec(r, c, detail)),
        decreases rows@.len() - k,
    {
        let line = row_line(&rows[k], cf, ca, ct, cd, detail);
        let ls = finish_line(&line);
        let ghost before = lines@;
        lines.push(ls);
        proof {
            assert(rows@[k as int]@ == rv[k as int]);
            assert(rv.take(k + 1) =~= rv.take(k as int).push(rv[k as int]));
            assert(rv.take(k + 1).map_values(|r: RowView| row_line_spec(r, c, detail)) =~= rv.take(
                k as int,
            ).map_values(|r: RowView| row_line_spec(r, c, detail)).push(
                row_line_spec(rv[k as int], c, detail),
            ));
            assert(strings_view(lines@) =~= strings_view(before).push(ls@));
            assert(ls@ == row_line_spec(rv[k as int], c, detail));
            let hs = seq![header_spec(c, detail), separator_spec(c, detail)];
            let a = rv.take(k as int).map_values(|r: RowView| row_line_spec(r, c, detail));
            assert((hs + a).push(ls@) =~= hs + a.push(ls@));
        }
        k = k + 1;
        proof {
            assert(strings_view(lines@) =~= seq![header_spec(c, detail), separator_spec(c, detail)]
                + rv.take(k as int).map_values(|r: RowView| row_line_spec(r, c, detail)));
        }
    }
    lines.push(string_from_chars(&Vec::new()));
    lines.push(finish_line(&footer_line(items.len(), lang)));
    proof {
        assert(rv.take(k as int) =~= rv);
        assert(strings_view(lines@) =~= listing_spec(iv, lang, detail, total_width as nat));
    }
    lines
}

} // verus!
