use xbark::release::{release_next, ReleaseNext, ReleaseStage};
use xbark::release::{
    branch_error, bump_semver, confirmed, is_bump_level, lines_of, release_tag, rewrite_conf_text,
    rewrite_version_text, tag_message, workspace_version,
};
use xbark::text::chars_of;

#[test]
fn bump_semver_levels() {
    assert_eq!(bump_semver("1.2.3", "major").unwrap(), "2.0.0");
    assert_eq!(bump_semver("1.2.3", "minor").unwrap(), "1.3.0");
    assert_eq!(bump_semver("1.2.3", "patch").unwrap(), "1.2.4");
    assert_eq!(bump_semver("0.9.9", "patch").unwrap(), "0.9.10");
}

#[test]
fn bump_semver_errors() {
    assert_eq!(bump_semver("1.2", "patch").unwrap_err(), "expected semver x.y.z, got 1.2");
    assert_eq!(bump_semver("1.2.3.4", "patch").unwrap_err(), "expected semver x.y.z, got 1.2.3.4");
    assert_eq!(bump_semver("1.x.3", "patch").unwrap_err(), "invalid version: invalid digit found in string");
    assert_eq!(bump_semver("1..3", "patch").unwrap_err(), "invalid version: cannot parse integer from empty string");
    assert_eq!(bump_semver("", "minor").unwrap_err(), "invalid version: cannot parse integer from empty string");
    assert_eq!(
        bump_semver("99999999999999999999.0.0", "major").unwrap_err(),
        "invalid version: number too large to fit in target type"
    );
    // A malformed version is refused before the level is looked at.
    assert_eq!(bump_semver("1.x.3", "huge").unwrap_err(), "invalid version: invalid digit found in string");
    assert_eq!(bump_semver("1.2", "").unwrap_err(), "expected semver x.y.z, got 1.2");
}

#[test]
fn lines_match_std() {
    for text in ["", "a", "a\n", "a\r\nb", "a\n\nb\n", "x\r", "\n", "a\rb\n"] {
        let ours: Vec<String> = lines_of(&chars_of(text)).into_iter().map(|l| l.into_iter().collect()).collect();
        let std_lines: Vec<String> = text.lines().map(|l| l.to_string()).collect();
        assert_eq!(ours, std_lines, "{text:?}");
    }
}

#[test]
fn workspace_version_lookup() {
    let toml = "[workspace]\nmembers = [\"a\"]\n\n[workspace.package]\nversion = \"0.3.1\"\nedition = \"2021\"\n";
    assert_eq!(workspace_version(toml).as_deref(), Some("0.3.1"));
    let ws = "[package]\nversion.workspace = true\nversion = \"1.0.0\"\n";
    assert_eq!(workspace_version(ws).as_deref(), Some("1.0.0"));
    assert_eq!(workspace_version("[package]\nname = \"x\"\n"), None);
}

#[test]
fn rewrite_cargo_versions() {
    let toml = "[workspace.package]\nversion = \"0.1.0\"\n\n[dependencies]\nfoo = { version = \"0.1.0\" }\n";
    let (out, changed) = rewrite_version_text(toml, "0.1.0", "0.1.1");
    assert!(changed);
    assert_eq!(out, "[workspace.package]\nversion = \"0.1.1\"\n\n[dependencies]\nfoo = { version = \"0.1.0\" }\n");
    let (same, changed) = rewrite_version_text("name = \"x\"", "0.1.0", "0.1.1");
    assert!(!changed);
    assert_eq!(same, "name = \"x\"");
}

#[test]
fn rewrite_tauri_conf() {
    let conf = "{\n  \"productName\": \"xbark\",\n  \"version\": \"0.1.0\",\n  \"identifier\": \"sh.w-mai.xbark\"\n}\n";
    let (out, changed) = rewrite_conf_text(conf, "0.2.0");
    assert!(changed);
    assert_eq!(out, "{\n  \"productName\": \"xbark\",\n  \"version\": \"0.2.0\",\n  \"identifier\": \"sh.w-mai.xbark\"\n}\n");
    let (out, changed) = rewrite_conf_text("\t\"version\": \"1\"", "2");
    assert!(changed);
    assert_eq!(out, "\t\"version\": \"2\"");
    let (_, changed) = rewrite_conf_text("{}", "2");
    assert!(!changed);
}

#[test]
fn release_checks() {
    assert!(is_bump_level("patch"));
    assert!(!is_bump_level("Patch"));
    assert_eq!(release_tag("1.2.3"), "v1.2.3");
    assert_eq!(tag_message("1.2.3"), "xbark 1.2.3");
    assert_eq!(branch_error("main\n"), None);
    assert_eq!(branch_error("dev\n").unwrap(), "release must happen on main, currently on dev");
    assert!(confirmed(" Y\n"));
    assert!(confirmed("yes"));
    assert!(confirmed("Y"));
    assert!(confirmed("\tYeS "));
    assert!(!confirmed("no"));
    assert!(!confirmed(""));
}

#[test]
fn rewritten_manifest_reads_new_version() {
    let toml = "[workspace]\r\nmembers = [\"a\"]\r\n\r\n[workspace.package]\r\n  version = \"0.4.2\" # current\r\nedition = \"2021\"\r\r\n";
    let current = workspace_version(toml).unwrap();
    assert_eq!(current, "0.4.2");
    let next = bump_semver(&current, "minor").unwrap();
    let (out, changed) = rewrite_version_text(toml, &current, &next);
    assert!(changed);
    assert_eq!(workspace_version(&out).as_deref(), Some("0.5.0"));
}

#[test]
fn release_stage_order() {
    let mut stage = ReleaseStage::CleanTree;
    let mut seen = vec![stage];
    while let ReleaseNext::Run(next) = release_next(stage, true, "v1.0.0", "") {
        stage = next;
        seen.push(stage);
    }
    assert_eq!(
        seen,
        vec![
            ReleaseStage::CleanTree,
            ReleaseStage::OnMain,
            ReleaseStage::TagFree,
            ReleaseStage::Confirmed,
            ReleaseStage::PushMain,
            ReleaseStage::MakeTag,
            ReleaseStage::PushTag,
        ]
    );
    assert_eq!(release_next(ReleaseStage::PushTag, true, "v1.0.0", ""), ReleaseNext::Released);
    let abort = |s, msg: &str| release_next(s, false, "v1.0.0", msg);
    assert_eq!(abort(ReleaseStage::CleanTree, ""), ReleaseNext::Abort("commit or stash changes first".into()));
    assert_eq!(
        abort(ReleaseStage::OnMain, "release must happen on main, currently on dev"),
        ReleaseNext::Abort("release must happen on main, currently on dev".into())
    );
    assert_eq!(
        abort(ReleaseStage::TagFree, ""),
        ReleaseNext::Abort("tag v1.0.0 already exists — bump version first".into())
    );
    assert_eq!(abort(ReleaseStage::Confirmed, ""), ReleaseNext::Abort("aborted".into()));
    assert_eq!(abort(ReleaseStage::PushMain, ""), ReleaseNext::Abort("git push main failed".into()));
    assert_eq!(abort(ReleaseStage::MakeTag, ""), ReleaseNext::Abort("git tag failed".into()));
    assert_eq!(abort(ReleaseStage::PushTag, ""), ReleaseNext::Abort("git push tag failed".into()));
}
