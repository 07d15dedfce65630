use xbark::resolver::{MetaEntry, Resolver, StickerMeta};

fn meta(filename: &str, ai: &str, desc: &str, tags: &[&str]) -> StickerMeta {
    StickerMeta {
        filename: filename.to_string(),
        ai_name: ai.to_string(),
        description: desc.to_string(),
        tags: tags.iter().map(|t| t.to_string()).collect(),
    }
}

fn sample() -> Resolver {
    let mut r = Resolver::new("/stickers".to_string());
    let entries = vec![
        MetaEntry { key: "b.jpg".to_string(), meta: meta("b.jpg", "thumbs-up", "Man smiling, thumbs up", &["点赞", "认可"]) },
        MetaEntry { key: "a.gif".to_string(), meta: meta("a.gif", "cat-dance", "A Dancing Cat", &["Happy"]) },
        MetaEntry { key: "c.png".to_string(), meta: meta("c.png", "sad-dog", "dog in rain", &[]) },
    ];
    assert_eq!(r.replace_entries(entries), 3);
    r
}

#[test]
fn resolve_priorities() {
    let r = sample();
    assert_eq!(r.resolve("a.gif").unwrap().filename, "a.gif");
    assert_eq!(r.resolve("sad-dog").unwrap().filename, "c.png");
    assert_eq!(r.resolve("happ").unwrap().filename, "a.gif");
    assert_eq!(r.resolve("点赞").unwrap().filename, "b.jpg");
    assert_eq!(r.resolve("RAIN").unwrap().filename, "c.png");
    assert!(r.resolve("nothing-here").is_none());
}

#[test]
fn resolve_on_empty_index_is_none() {
    let r = Resolver::new("/x".to_string());
    assert!(r.resolve("").is_none());
    assert!(r.resolve("a").is_none());
}

#[test]
fn list_sorted_and_filtered() {
    let r = sample();
    let all: Vec<String> = r.list(None).into_iter().map(|m| m.filename).collect();
    assert_eq!(all, vec!["a.gif", "b.jpg", "c.png"]);
    let cats: Vec<String> = r.list(Some("CAT")).into_iter().map(|m| m.filename).collect();
    assert_eq!(cats, vec!["a.gif"]);
    let g: Vec<String> = r.list(Some("g")).into_iter().map(|m| m.filename).collect();
    assert_eq!(g, vec!["a.gif", "b.jpg", "c.png"]);
    assert!(r.list(Some("zzz")).is_empty());
}

#[test]
fn resolve_path_joins_directory() {
    let r = sample();
    let m = r.resolve("a.gif").unwrap();
    assert_eq!(r.resolve_path(&m), "/stickers/a.gif");
    assert_eq!(r.sticker_dir(), "/stickers");
    let abs = meta("/tmp/x.png", "", "", &[]);
    assert_eq!(r.resolve_path(&abs), "/tmp/x.png");
}

#[test]
fn empty_filter_lists_all() {
    let r = sample();
    let all: Vec<String> = r.list(None).into_iter().map(|m| m.filename).collect();
    let empty: Vec<String> = r.list(Some("")).into_iter().map(|m| m.filename).collect();
    assert_eq!(all, vec!["a.gif", "b.jpg", "c.png"]);
    assert_eq!(empty, all);
    assert!(r.list(Some("dog")).len() <= r.list(None).len());
}

#[test]
fn ascii_case_is_ignored_by_tags_and_filters() {
    let r = sample();
    assert_eq!(r.resolve("HAPPY").unwrap().filename, r.resolve("happy").unwrap().filename);
    assert_eq!(r.resolve("DoG In").unwrap().filename, "c.png");
    let upper: Vec<String> = r.list(Some("DANCING")).into_iter().map(|m| m.filename).collect();
    let lower: Vec<String> = r.list(Some("dancing")).into_iter().map(|m| m.filename).collect();
    assert_eq!(upper, vec!["a.gif"]);
    assert_eq!(upper, lower);
}
