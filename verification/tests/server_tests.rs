use xbark::config::{choose_sticker_dir, config_path, fallback_config_dir, DirProbe};
use xbark::daemon::{already_running_message, desired_port, mdns_host_name, mdns_instance_name, start_check, StartCheck};
use xbark::resolver::{MetaEntry, Resolver, StickerMeta};
use xbark::server::{
    begin_send, build_payload, compose_data_url, image_data_url, image_step, mime_for_extension,
    mime_for_path, plan_send, rejection, show_failed, shown, ImageRead, SendPlan,
};

fn index() -> Resolver {
    let mut r = Resolver::new("/packs".to_string());
    let m = StickerMeta {
        filename: "thumb.JPG".into(),
        ai_name: "thumbs-up".into(),
        description: "approval".into(),
        tags: vec!["赞".into()],
    };
    r.replace_entries(vec![MetaEntry { key: "thumb.JPG".into(), meta: m }]);
    r
}

#[test]
fn send_plans() {
    let r = index();
    match plan_send(&r, Some("赞"), None) {
        SendPlan::Show { path, sticker } => {
            assert_eq!(path, "/packs/thumb.JPG");
            assert_eq!(sticker.unwrap().ai_name, "thumbs-up");
        }
        other => panic!("unexpected {other:?}"),
    }
    match plan_send(&r, Some("nope"), Some("/x.png")) {
        SendPlan::Reject { status, error } => {
            assert_eq!(status, 404);
            assert_eq!(error, "no sticker matches keyword: nope");
        }
        other => panic!("unexpected {other:?}"),
    }
    match plan_send(&r, None, Some("/x.png")) {
        SendPlan::Show { path, sticker } => {
            assert_eq!(path, "/x.png");
            assert!(sticker.is_none());
        }
        other => panic!("unexpected {other:?}"),
    }
    match plan_send(&r, None, None) {
        SendPlan::Reject { status, error } => {
            assert_eq!(status, 400);
            assert_eq!(error, "either keyword or path must be provided");
        }
        other => panic!("unexpected {other:?}"),
    }
}

#[test]
fn request_ids_are_hyphenated_uuids() {
    let r = index();
    let (a, _) = begin_send(&r, None, None);
    let (b, _) = begin_send(&r, None, None);
    assert_eq!(a.len(), 36);
    assert_ne!(a, b);
    assert!(a.chars().enumerate().all(|(i, c)| if [8, 13, 18, 23].contains(&i) { c == '-' } else { c.is_ascii_hexdigit() && !c.is_ascii_uppercase() }));
}

#[test]
fn mime_types() {
    assert_eq!(mime_for_extension(Some("JPG")), "image/jpeg");
    assert_eq!(mime_for_extension(Some("jpeg")), "image/jpeg");
    assert_eq!(mime_for_extension(Some("png")), "image/png");
    assert_eq!(mime_for_extension(Some("Gif")), "image/gif");
    assert_eq!(mime_for_extension(Some("webp")), "image/webp");
    assert_eq!(mime_for_extension(Some("bmp")), "application/octet-stream");
    assert_eq!(mime_for_extension(None), "application/octet-stream");
    assert_eq!(mime_for_path("/a/b.c/pic.PNG"), "image/png");
    assert_eq!(mime_for_path("/a/.gif"), "application/octet-stream");
    assert_eq!(mime_for_path("/a/noext"), "application/octet-stream");
}

#[test]
fn data_urls() {
    assert_eq!(compose_data_url("image/gif", "R0lG"), "data:image/gif;base64,R0lG");
    assert_eq!(image_data_url("/x/a.gif", b"GIF89a"), "data:image/gif;base64,R0lGODlh");
    assert_eq!(image_data_url("/x/a.png", b"ab"), "data:image/png;base64,YWI=");
    assert_eq!(image_data_url("/x/a", b""), "data:application/octet-stream;base64,");
}

#[test]
fn payload_defaults() {
    let meta = Some(StickerMeta { filename: "a".into(), ai_name: "ai".into(), description: "d".into(), tags: vec![] });
    let p = build_payload("id".into(), "url".into(), 2000, None, 256, None, "bottom-right", &meta);
    assert_eq!((p.size, p.position.as_str(), p.description.as_str(), p.ai_name.as_str(), p.duration_ms), (256, "bottom-right", "d", "ai", 2000));
    let q = build_payload("id".into(), "url".into(), 1500, Some(64), 256, Some("center".into()), "bottom-right", &None);
    assert_eq!((q.size, q.position.as_str(), q.description.as_str(), q.ai_name.as_str()), (64, "center", "", ""));
}

#[test]
fn responses() {
    let (s, r) = rejection("i".into(), 404, "file not found".into());
    assert_eq!((s, r.ok, r.error.as_deref()), (404, false, Some("file not found")));
    let (s, r) = shown("i".into(), None);
    assert_eq!((s, r.ok, r.error.is_none()), (200, true, true));
    let (s, r) = show_failed("i".into(), None, "overlay window missing".into());
    assert_eq!((s, r.ok), (500, false));
}

#[test]
fn daemon_start_decisions() {
    assert_eq!(start_check(None, true), StartCheck::Fresh);
    assert_eq!(start_check(Some(9), false), StartCheck::Stale);
    assert_eq!(start_check(Some(9), true), StartCheck::AlreadyRunning(9));
    assert_eq!(already_running_message(9), "xbark daemon already running (pid 9). use `xbark stop` first.");
    assert_eq!(desired_port(Some(1234), 0), 1234);
    assert_eq!(desired_port(None, 4321), 4321);
    assert_eq!(mdns_instance_name(321), "xbark-321");
    assert_eq!(mdns_host_name(321), "xbark-321.local.");
}

#[test]
fn config_locations() {
    assert_eq!(config_path("/home/u/.config/xbark"), "/home/u/.config/xbark/config.toml");
    assert_eq!(fallback_config_dir("/home/u"), "/home/u/.config/xbark");
    let probe = |p: &str, e: bool| DirProbe { path: p.to_string(), exists: e };
    assert_eq!(choose_sticker_dir(Some(probe("/c", true)), probe("/u", true), None, None), ("/c".to_string(), false));
    assert_eq!(choose_sticker_dir(Some(probe("/c", false)), probe("/u", true), None, None), ("/u".to_string(), true));
    assert_eq!(choose_sticker_dir(None, probe("/u", false), Some(probe("/b", true)), Some(probe("/d", true))), ("/b".to_string(), false));
    assert_eq!(choose_sticker_dir(None, probe("/u", false), Some(probe("/b", false)), Some(probe("/d", true))), ("/d".to_string(), false));
    assert_eq!(choose_sticker_dir(Some(probe("/c", false)), probe("/u", false), None, None), ("/u".to_string(), true));
}

#[test]
fn image_step_answers() {
    let (status, resp) = image_step("id1".into(), "/x/a.gif", "\"/x/a.gif\"", ImageRead::Missing).unwrap_err();
    assert_eq!(status, 404);
    assert!(!resp.ok);
    assert_eq!(resp.id, "id1");
    assert_eq!(resp.error.as_deref(), Some("file not found: \"/x/a.gif\""));
    let (status, resp) = image_step(
        "id2".into(),
        "/x/a.gif",
        "\"/x/a.gif\"",
        ImageRead::Unreadable("Permission denied (os error 13)".into()),
    )
    .unwrap_err();
    assert_eq!(status, 500);
    assert_eq!(resp.error.as_deref(), Some("read image failed: Permission denied (os error 13)"));
    let url = image_step("id3".into(), "/x/a.png", "", ImageRead::Bytes(b"ab".to_vec())).unwrap();
    assert_eq!(url, "data:image/png;base64,YWI=");
}

#[test]
fn mime_follows_path_extension() {
    assert_eq!(mime_for_path("/x/.gif"), "application/octet-stream");
    assert_eq!(mime_for_path("a/b.GIF/"), "image/gif");
    assert_eq!(mime_for_path("dir.png/."), "image/png");
    assert_eq!(mime_for_path("x/.."), "application/octet-stream");
    assert_eq!(mime_for_path("a.tar.webp"), "image/webp");
    assert_eq!(mime_for_path("/pics//c.JPEG"), "image/jpeg");
    assert_eq!(mime_for_path("noext"), "application/octet-stream");
    assert_eq!(mime_for_path("trailing."), "application/octet-stream");
}
