use xbark::listing::{listing_lines, pick, pick_tags, resolve_lang, Lang, ListItem, TagsField, TextField};

fn s(v: &[char]) -> String {
    v.iter().collect()
}

fn loc(en: &str, zh: &str) -> TextField {
    TextField::Localized { en: en.to_string(), zh: zh.to_string() }
}

#[test]
fn lang_resolution() {
    assert_eq!(resolve_lang("zh", "en_US.UTF-8"), (Lang::Zh, false));
    assert_eq!(resolve_lang("en", "zh_CN.UTF-8"), (Lang::En, false));
    assert_eq!(resolve_lang("both", ""), (Lang::Both, false));
    assert_eq!(resolve_lang("auto", "zh_CN.UTF-8"), (Lang::Zh, false));
    assert_eq!(resolve_lang("", "ZH-Hans"), (Lang::Zh, false));
    assert_eq!(resolve_lang("auto", "en_GB"), (Lang::En, false));
    assert_eq!(resolve_lang("auto", ""), (Lang::En, false));
    assert_eq!(resolve_lang("fr", "zh_TW"), (Lang::Zh, true));
}

#[test]
fn pick_prefers_language_with_fallback() {
    assert_eq!(s(&pick(&TextField::Plain("plain".into()), Lang::Zh)), "plain");
    assert_eq!(s(&pick(&loc("hi", "你好"), Lang::Zh)), "你好");
    assert_eq!(s(&pick(&loc("hi", ""), Lang::Zh)), "hi");
    assert_eq!(s(&pick(&loc("hi", "你好"), Lang::En)), "hi");
    assert_eq!(s(&pick(&loc("", "你好"), Lang::En)), "你好");
    assert_eq!(s(&pick(&loc("hi", "你好"), Lang::Both)), "hi / 你好");
    assert_eq!(s(&pick(&loc("", "你好"), Lang::Both)), "你好");
    assert_eq!(s(&pick(&loc("", ""), Lang::Both)), "");
}

#[test]
fn pick_tags_joins_with_commas() {
    let plain = TagsField::Plain(vec!["a".into(), "b".into()]);
    assert_eq!(s(&pick_tags(&plain, Lang::Zh)), "a,b");
    let l = TagsField::Localized { en: vec!["up".into(), "ok".into()], zh: vec!["赞".into()] };
    assert_eq!(s(&pick_tags(&l, Lang::Zh)), "赞");
    assert_eq!(s(&pick_tags(&l, Lang::En)), "up,ok");
    assert_eq!(s(&pick_tags(&l, Lang::Both)), "up,ok,赞");
    let only_en = TagsField::Localized { en: vec!["x".into()], zh: vec![] };
    assert_eq!(s(&pick_tags(&only_en, Lang::Zh)), "x");
    assert_eq!(s(&pick_tags(&TagsField::Plain(vec![]), Lang::En)), "");
}

#[test]
fn empty_listing() {
    assert_eq!(listing_lines(&vec![], Lang::En, false, 80), vec!["(no stickers found)".to_string()]);
}

#[test]
fn listing_table_layout() {
    let items = vec![
        ListItem {
            filename: "a.gif".into(),
            ai_name: TextField::Plain("cat".into()),
            tags: TagsField::Plain(vec!["happy".into(), "cat".into()]),
            description: TextField::Plain("A dancing cat".into()),
        },
        ListItem {
            filename: "bb.jpg".into(),
            ai_name: loc("thumbs-up", "点赞"),
            tags: TagsField::Localized { en: vec!["ok".into()], zh: vec!["赞".into()] },
            description: loc("Approval", "认可"),
        },
    ];
    let lines = listing_lines(&items, Lang::En, false, 80);
    assert_eq!(lines.len(), 6);
    assert_eq!(lines[0], "\x1b[1mFILEN…  AINAME     TAGS     \x1b[0m");
    assert_eq!(lines[1], "\x1b[2m──────  ─────────  ─────────\x1b[0m");
    assert_eq!(lines[2], "a.gif   cat        happy,cat");
    assert_eq!(lines[3], "bb.jpg  thumbs-up  ok       ");
    assert_eq!(lines[4], "");
    assert_eq!(lines[5], "\x1b[2m2 stickers · lang=en · tip: --lang <zh|en|both>, --detail for descriptions\x1b[0m");

    let detailed = listing_lines(&items, Lang::Zh, true, 40);
    assert_eq!(detailed[0], "\x1b[1mFILEN…  AIN…  TAGS       DESCRIPTION\x1b[0m");
    assert_eq!(detailed[2], "a.gif   cat   happy,cat  A dancing cat");
    assert_eq!(detailed[1], format!("\x1b[2m{}  {}  {}  {}\x1b[0m", "─".repeat(6), "─".repeat(4), "─".repeat(9), "─".repeat(20)));
    assert_eq!(detailed[3], "bb.jpg  点赞  赞         认可");
    assert!(detailed[5].contains("lang=zh"));
}
