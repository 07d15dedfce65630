//! Laws on the orders of preference: which rule a keyword resolves by,
//! which directory holds the stickers, which language the tags are shown
//! in, how wide the description column is, and which bump levels exist.
//! Each is stated over the inputs and the result, not through the rule's
//! own spec function.

use vstd::prelude::*;
use crate::config::choose_dir_spec;
use crate::listing::{
    columns_spec, join_spec, pick_tags_spec, row_line_spec, spacer, Lang, RowView, TagsFieldView,
};
use crate::release::is_level;
use crate::resolver::{
    best_tier, description_matches, resolves_to, tag_matches, tier_hit, tier_matches,
    StickerMetaView,
};
use crate::text::lowercase;
use crate::width::{truncate_spec, width_seq};

verus! {

/// Some entry has the key `kw`.
pub open spec fn some_key_is(entries: Seq<(Seq<char>, StickerMetaView)>, kw: Seq<char>) -> bool {
    exists|i: int| 0 <= i < entries.len() && #[trigger] entries[i].0 == kw
}

/// Some entry has the AI name `kw`.
pub open spec fn some_ai_name_is(entries: Seq<(Seq<char>, StickerMetaView)>, kw: Seq<char>) -> bool {
    exists|i: int| 0 <= i < entries.len() && #[trigger] entries[i].1.ai_name == kw
}

/// Some entry has a tag whose lowercase form contains `lkw`.
pub open spec fn some_tag_holds(entries: Seq<(Seq<char>, StickerMetaView)>, lkw: Seq<char>) -> bool {
    exists|i: int| 0 <= i < entries.len() && tag_matches(#[trigger] entries[i].1, lkw)
}

/// Some entry has a description whose lowercase form contains `lkw`.
pub open spec fn some_description_holds(
    entries: Seq<(Seq<char>, StickerMetaView)>,
    lkw: Seq<char>,
) -> bool {
    exists|i: int| 0 <= i < entries.len() && description_matches(#[trigger] entries[i].1, lkw)
}

/// Law: `resolve` tries its rules in order. A key equal to the keyword wins;
/// else an AI name equal to it; else a tag containing it (ignoring case);
/// else a description containing it (ignoring case); and with none of them
/// there is no sticker. What comes back is always the metadata of an entry.
pub proof fn resolve_follows_rule_order(
    entries: Seq<(Seq<char>, StickerMetaView)>,
    kw: Seq<char>,
    r: Option<StickerMetaView>,
)
    requires
        resolves_to(entries, kw, r),
    ensures
        r matches Some(m) ==> exists|i: int| 0 <= i < entries.len() && #[trigger] entries[i].1 == m,
        some_key_is(entries, kw) ==> (r matches Some(m) && exists|i: int|
            0 <= i < entries.len() && #[trigger] entries[i].0 == kw && entries[i].1 == m),
        !some_key_is(entries, kw) && some_ai_name_is(entries, kw) ==> (r matches Some(m)
            && m.ai_name == kw),
        !some_key_is(entries, kw) && !some_ai_name_is(entries, kw) && some_tag_holds(
            entries,
            lowercase(kw),
        ) ==> (r matches Some(m) && tag_matches(m, lowercase(kw))),
        !some_key_is(entries, kw) && !some_ai_name_is(entries, kw) && !some_tag_holds(
            entries,
            lowercase(kw),
        ) && some_description_holds(entries, lowercase(kw)) ==> (r matches Some(m)
            && description_matches(m, lowercase(kw))),
        !some_key_is(entries, kw) && !some_ai_name_is(entries, kw) && !some_tag_holds(
            entries,
            lowercase(kw),
        ) && !some_description_holds(entries, lowercase(kw)) ==> r is None,
{
    let lkw = lowercase(kw);
    if some_key_is(entries, kw) {
        let i = choose|i: int| 0 <= i < entries.len() && #[trigger] entries[i].0 == kw;
        assert(tier_matches(entries[i], kw, 1));
    }
    if tier_hit(entries, kw, 1) {
        let i = choose|i: int| 0 <= i < entries.len() && tier_matches(#[trigger] entries[i], kw, 1);
        assert(entries[i].0 == kw);
    }
    if some_ai_name_is(entries, kw) {
        let i = choose|i: int| 0 <= i < entries.len() && #[trigger] entries[i].1.ai_name == kw;
        assert(tier_matches(entries[i], kw, 2));
    }
    if tier_hit(entries, kw, 2) {
        let i = choose|i: int| 0 <= i < entries.len() && tier_matches(#[trigger] entries[i], kw, 2);
        assert(entries[i].1.ai_name == kw);
    }
    if some_tag_holds(entries, lkw) {
        let i = choose|i: int| 0 <= i < entries.len() && tag_matches(#[trigger] entries[i].1, lkw);
        assert(tier_matches(entries[i], kw, 3));
    }
    if tier_hit(entries, kw, 3) {
        let i = choose|i: int| 0 <= i < entries.len() && tier_matches(#[trigger] entries[i], kw, 3);
        assert(tag_matches(entries[i].1, lkw));
    }
    if some_description_holds(entries, lkw) {
        let i = choose|i: int|
            0 <= i < entries.len() && description_matches(#[trigger] entries[i].1, lkw);
        assert(tier_matches(entries[i], kw, 4));
    }
    if tier_hit(entries, kw, 4) {
        let i = choose|i: int| 0 <= i < entries.len() && tier_matches(#[trigger] entries[i], kw, 4);
        assert(description_matches(entries[i].1, lkw));
    }
    let t = best_tier(entries, kw);
    if t != 5 {
        let i = choose|i: int|
            0 <= i < entries.len() && tier_matches(#[trigger] entries[i], kw, t) && r == Some(
                entries[i].1,
            );
        assert(entries[i].1 == r->Some_0);
        if t == 1 {
            assert(entries[i].0 == kw);
        }
    }
}

/// Law: with descriptions shown, the description column takes what the
/// terminal width leaves after the three other columns and their two-space
/// gaps (the columns' widths plus six), but never less than 20 columns; the
/// other columns are at most 46, 28 and 42 wide and no narrower than their
/// widest cell up to that cap. A row whose description fits in what the
/// terminal leaves is printed with its description uncut.
pub proof fn description_column_takes_the_rest(rows: Seq<RowView>, total_width: nat, i: int)
    ensures
        ({
            let c = columns_spec(rows, true, total_width);
            let fixed = c.fname + c.ai + c.tags + 6;
            &&& c.desc == if total_width >= fixed + 20 {
                (total_width - fixed) as nat
            } else {
                20
            }
            &&& c.fname <= 46 && c.ai <= 28 && c.tags <= 42
            &&& (0 <= i < rows.len() ==> {
                &&& (width_seq(rows[i].filename) <= c.fname || c.fname == 46)
                &&& (width_seq(rows[i].ainame) <= c.ai || c.ai == 28)
                &&& (width_seq(rows[i].tags) <= c.tags || c.tags == 42)
            })
            &&& (0 <= i < rows.len() && fixed + width_seq(rows[i].description) <= total_width
                ==> row_line_spec(rows[i], c, true) == row_line_spec(rows[i], c, false) + spacer()
                + rows[i].description)
        }),
{
    let c = columns_spec(rows, true, total_width);
    if 0 <= i < rows.len() {
        crate::laws::lemma_max_of_ge(rows.map_values(|r: RowView| width_seq(r.filename)), i);
        crate::laws::lemma_max_of_ge(rows.map_values(|r: RowView| width_seq(r.ainame)), i);
        crate::laws::lemma_max_of_ge(rows.map_values(|r: RowView| width_seq(r.tags)), i);
        let fixed = c.fname + c.ai + c.tags + 6;
        if fixed + width_seq(rows[i].description) <= total_width {
            crate::laws::truncate_width_bound(rows[i].description, c.desc);
            assert(truncate_spec(rows[i].description, c.desc) == rows[i].description);
        }
    }
}

/// Law: the sticker directory is chosen by priority. A configured directory
/// that exists wins; else the user's directory if it exists, whatever the
/// other candidates are; else the one next to the executable if it exists;
/// else the development checkout's if it exists; else the user's directory.
/// The warning flag is set exactly when a configured directory is missing.
pub proof fn sticker_dir_priority(
    configured: Option<(Seq<char>, bool)>,
    user: (Seq<char>, bool),
    bundled: Option<(Seq<char>, bool)>,
    dev: Option<(Seq<char>, bool)>,
)
    ensures
        ({
            let r = choose_dir_spec(configured, user, bundled, dev);
            let conf_ok = configured matches Some(c) && c.1;
            let bundled_ok = bundled matches Some(b) && b.1;
            let dev_ok = dev matches Some(d) && d.1;
            &&& conf_ok ==> r.0 == configured->Some_0.0
            &&& !conf_ok && user.1 ==> r.0 == user.0
            &&& !conf_ok && !user.1 && bundled_ok ==> r.0 == bundled->Some_0.0
            &&& !conf_ok && !user.1 && !bundled_ok && dev_ok ==> r.0 == dev->Some_0.0
            &&& !conf_ok && !user.1 && !bundled_ok && !dev_ok ==> r.0 == user.0
            &&& r.1 == (configured matches Some(c) && !c.1)
        }),
{
}

/// Law: a localized tags field shows the preferred language's tags, joined
/// with commas, and falls back to the other language's when the preferred
/// list is empty; `both` shows the English tags then the Chinese. So when
/// either list holds a tag and no tag is empty, the tags column is not
/// empty in any language mode.
pub proof fn tags_fall_back_to_other_language(en: Seq<Seq<char>>, zh: Seq<Seq<char>>, lang: Lang)
    ensures
        ({
            let f = TagsFieldView::Localized { en, zh };
            &&& en.len() > 0 ==> pick_tags_spec(f, Lang::En) == join_spec(en, ","@)
            &&& en.len() == 0 ==> pick_tags_spec(f, Lang::En) == join_spec(zh, ","@)
            &&& zh.len() > 0 ==> pick_tags_spec(f, Lang::Zh) == join_spec(zh, ","@)
            &&& zh.len() == 0 ==> pick_tags_spec(f, Lang::Zh) == join_spec(en, ","@)
            &&& pick_tags_spec(f, Lang::Both) == join_spec(en + zh, ","@)
            &&& (en.len() > 0 || zh.len() > 0) && (forall|k: int| 0 <= k < en.len() ==> (
            #[trigger] en[k]).len() > 0) && (forall|k: int| 0 <= k < zh.len() ==> (
            #[trigger] zh[k]).len() > 0) ==> pick_tags_spec(f, lang).len() > 0
        }),
{
    let f = TagsFieldView::Localized { en, zh };
    if (en.len() > 0 || zh.len() > 0) && (forall|k: int| 0 <= k < en.len() ==> (
    #[trigger] en[k]).len() > 0) && (forall|k: int| 0 <= k < zh.len() ==> (
    #[trigger] zh[k]).len() > 0) {
        let shown = match lang {
            Lang::Zh => if zh.len() > 0 {
                zh
            } else {
                en
            },
            Lang::En => if en.len() > 0 {
                en
            } else {
                zh
            },
            Lang::Both => en + zh,
        };
        assert(shown.len() > 0);
        assert(shown[0].len() > 0) by {
            if shown == en + zh && en.len() == 0 {
                assert(shown[0] == zh[0]);
            }
        }
        lemma_join_holds_first(shown, ","@);
    }
}

/// Joined text is at least as long as its first item.
proof fn lemma_join_holds_first(list: Seq<Seq<char>>, sep: Seq<char>)
    requires
        list.len() > 0,
    ensures
        join_spec(list, sep).len() >= list[0].len(),
    decreases list.len(),
{
    if list.len() > 1 {
        lemma_join_holds_first(list.drop_last(), sep);
    }
}

/// Law: the bump levels are exactly the three words `major`, `minor` and
/// `patch`.
pub proof fn bump_levels_are_major_minor_patch(level: Seq<char>)
    ensures
        is_level(level) <==> (level == seq!['m', 'a', 'j', 'o', 'r'] || level == seq![
            'm',
            'i',
            'n',
            'o',
            'r',
        ] || level == seq!['p', 'a', 't', 'c', 'h']),
        is_level(seq!['m', 'a', 'j', 'o', 'r']),
        is_level(seq!['m', 'i', 'n', 'o', 'r']),
        is_level(seq!['p', 'a', 't', 'c', 'h']),
{
    reveal_strlit("major");
    reveal_strlit("minor");
    reveal_strlit("patch");
    assert("major"@ =~= seq!['m', 'a', 'j', 'o', 'r']);
    assert("minor"@ =~= seq!['m', 'i', 'n', 'o', 'r']);
    assert("patch"@ =~= seq!['p', 'a', 't', 'c', 'h']);
}

} // verus!
