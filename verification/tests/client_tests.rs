use xbark::client::{start_step, StartStep, START_POLL_ATTEMPTS};
use xbark::client::{
    autostart, columns_width, daemon_url, launchctl_domain, launchd_plist, number_text,
    parse_pid_file, parse_port_file, plist_file_name, send_outcome, status_lines, stickers_path,
    stop_plan, stop_plan_message, stop_result_message, terminal_width, AutostartAction, StopPlan,
    LAUNCHD_LABEL,
};

#[test]
fn port_and_pid_files() {
    assert_eq!(parse_port_file("51234\n"), Some(51234));
    assert_eq!(parse_port_file("  8080  "), Some(8080));
    assert_eq!(parse_port_file("70000"), None);
    assert_eq!(parse_port_file(""), None);
    assert_eq!(parse_port_file("80x"), None);
    assert_eq!(parse_pid_file("4242\n"), Some(4242));
    assert_eq!(parse_pid_file("-1"), None);
}

#[test]
fn port_file_round_trips() {
    for p in [0u16, 7, 80, 65535] {
        assert_eq!(parse_port_file(&number_text(p as u64)), Some(p));
    }
    for p in [1u32, 99999, u32::MAX] {
        assert_eq!(parse_pid_file(&number_text(p as u64)), Some(p));
    }
}

#[test]
fn status_report_lines() {
    assert_eq!(status_lines(None, Some(1), true, None), vec!["daemon not running"]);
    assert_eq!(status_lines(Some(1), Some(2), false, None), vec!["daemon not running"]);
    assert_eq!(
        status_lines(Some(12), Some(3456), true, Some(Some("0.1.0"))),
        vec!["daemon running", "  pid:     12", "  port:    3456", "  version: 0.1.0"]
    );
    assert_eq!(status_lines(Some(12), Some(3456), true, Some(None))[3], "  version: ?");
    assert_eq!(
        status_lines(Some(12), Some(3456), true, None),
        vec!["daemon pid 12 alive but HTTP not responding"]
    );
}

#[test]
fn stop_decisions() {
    assert_eq!(stop_plan(None, true), StopPlan::NotRunning);
    assert_eq!(stop_plan(Some(5), false), StopPlan::Stale);
    assert_eq!(stop_plan(Some(5), true), StopPlan::Terminate(5));
    assert_eq!(stop_plan_message(StopPlan::NotRunning).unwrap(), "daemon not running");
    assert_eq!(stop_plan_message(StopPlan::Stale).unwrap(), "daemon not running (stale pid file)");
    assert!(stop_plan_message(StopPlan::Terminate(5)).is_none());
    assert_eq!(stop_result_message(77, true), "stopped (pid 77)");
    assert_eq!(
        stop_result_message(77, false),
        "daemon still running after SIGTERM, check manually (pid 77)"
    );
}

#[test]
fn send_outcomes() {
    assert_eq!(send_outcome(true, Some("a.gif"), None), Ok("sent: a.gif".to_string()));
    assert_eq!(send_outcome(true, None, Some("x")), Ok("sent".to_string()));
    assert_eq!(send_outcome(false, Some("a.gif"), Some("boom")), Err("boom".to_string()));
    assert_eq!(send_outcome(false, None, None), Err("unknown error".to_string()));
}

#[test]
fn request_paths_and_urls() {
    assert_eq!(stickers_path(None), "/stickers");
    assert_eq!(stickers_path(Some("a b")), "/stickers?filter=a%20b");
    assert_eq!(stickers_path(Some("点赞")), "/stickers?filter=%E7%82%B9%E8%B5%9E");
    assert_eq!(stickers_path(Some("x-_.~")), "/stickers?filter=x-_.~");
    assert_eq!(daemon_url(4321, "/health"), "http://127.0.0.1:4321/health");
}

#[test]
fn terminal_width_sources() {
    assert_eq!(columns_width(Some("100")), Some(100));
    assert_eq!(columns_width(Some("0")), None);
    assert_eq!(columns_width(Some(" 80")), None);
    assert_eq!(terminal_width(Some("132"), Some("90\n")), 132);
    assert_eq!(terminal_width(Some("abc"), Some(" 90\n")), 90);
    assert_eq!(terminal_width(None, Some("0")), 120);
    assert_eq!(terminal_width(None, None), 120);
}

#[test]
fn autostart_gating_and_plist() {
    assert_eq!(autostart(AutostartAction::Install, true), Ok(AutostartAction::Install));
    assert_eq!(
        autostart(AutostartAction::Status, false),
        Err("autostart is only implemented for macOS right now".to_string())
    );
    assert_eq!(plist_file_name(LAUNCHD_LABEL), "sh.w-mai.xbark.plist");
    assert_eq!(launchctl_domain(501), "gui/501");
    let p = launchd_plist(LAUNCHD_LABEL, "/usr/local/bin/xbark", "/tmp/daemon.log");
    let want = format!(
        r#"<?xml version="1.0" encoding="UTF-8"?>
<!DOCTYPE plist PUBLIC "-//Apple//DTD PLIST 1.0//EN" "http://www.apple.com/DTDs/PropertyList-1.0.dtd">
<plist version="1.0">
<dict>
  <key>Label</key><string>{label}</string>
  <key>ProgramArguments</key>
  <array>
    <string>{exe}</string>
    <string>daemon</string>
  </array>
  <key>RunAtLoad</key><true/>
  <key>KeepAlive</key><false/>
  <key>StandardOutPath</key><string>{log}</string>
  <key>StandardErrorPath</key><string>{log}</string>
  <key>ProcessType</key><string>Interactive</string>
</dict>
</plist>
"#,
        label = "sh.w-mai.xbark",
        exe = "/usr/local/bin/xbark",
        log = "/tmp/daemon.log",
    );
    assert_eq!(p, want);
}

#[test]
fn start_steps() {
    assert_eq!(start_step(None, true), StartStep::Ready);
    assert_eq!(start_step(None, false), StartStep::Spawn);
    assert_eq!(start_step(Some(1), false), StartStep::Poll(2));
    assert_eq!(start_step(Some(7), true), StartStep::Ready);
    assert_eq!(start_step(Some(START_POLL_ATTEMPTS - 1), false), StartStep::Poll(START_POLL_ATTEMPTS));
    assert_eq!(start_step(Some(START_POLL_ATTEMPTS), false), StartStep::GiveUp);
    // Spawning counts as the first probe: the daemon gets fifty probes in all.
    let mut polls = Some(1);
    let mut probes = 1;
    while let StartStep::Poll(k) = start_step(polls, false) {
        polls = Some(k);
        probes += 1;
    }
    assert_eq!(probes, 50);
}
