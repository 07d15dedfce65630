//! Decisions of the command-line client: reading the daemon's pid and port
//! files, the status report, stopping, the outcome of a send, the request
//! paths it uses, the terminal width and the launchd autostart entry.
//!
//! Files, processes, signals and HTTP are the caller's; these functions
//! decide from what it observed and say what to print.

use vstd::prelude::*;
use crate::num::{dec_chars, dec_seq, parse_uint, parse_uint_spec};
use crate::text::{chars_of, push_chars, push_str_chars, string_from_chars, trim_chars, trim_seq};

verus! {

/// Name of the pid file in the configuration directory.
pub const PID_FILE_NAME: &'static str = "xbark.pid";

/// Name of the port file in the configuration directory.
pub const PORT_FILE_NAME: &'static str = "xbark.port";

/// How many times the client polls for a starting daemon (every
/// `POLL_INTERVAL_MS`), five seconds in all.
pub const START_POLL_ATTEMPTS: u32 = 50;

/// How many times `stop` polls for the daemon to exit, three seconds in all.
pub const STOP_POLL_ATTEMPTS: u32 = 30;

/// Pause between polls, in milliseconds.
pub const POLL_INTERVAL_MS: u64 = 100;

/// Health-check timeout for an already running daemon, in milliseconds.
pub const FIRST_HEALTH_TIMEOUT_MS: u64 = 500;

/// Health-check timeout while waiting for a daemon to start, in milliseconds.
pub const STARTUP_HEALTH_TIMEOUT_MS: u64 = 300;

/// Timeout of a request to the daemon, in seconds.
pub const REQUEST_TIMEOUT_SECS: u64 = 2;

/// Message when a spawned daemon never answered.
pub const START_TIMEOUT_MESSAGE: &'static str = "daemon failed to start within 5s";

/// Message when no port file was found.
pub const NO_PORT_FILE_MESSAGE: &'static str = "daemon not running (no port file)";

/// The value of a pid or port file: its trimmed text parsed as an unsigned
/// integer no larger than `max`, or `None`.
pub open spec fn file_number(text: Seq<char>, max: nat) -> Option<nat> {
    match parse_uint_spec(trim_seq(text), max) {
        Ok(v) => Some(v),
        Err(_) => None,
    }
}

fn parse_trimmed(text: &str, max: u64) -> (r: Option<u64>)
    requires
        max >= 9,
    ensures
        match file_number(text@, max as nat) {
            Some(v) => r == Some(v as u64) && v <= max,
            None => r is None,
        },
{
    let t = trim_chars(&chars_of(text));
    match parse_uint(&t, max) {
        Ok(v) => Some(v),
        Err(_) => None,
    }
}

/// The port recorded in a port file.
pub fn parse_port_file(text: &str) -> (r: Option<u16>)
    ensures
        match file_number(text@, u16::MAX as nat) {
            Some(v) => r == Some(v as u16),
            None => r is None,
        },
{
    match parse_trimmed(text, u16::MAX as u64) {
        Some(v) => Some(v as u16),
        None => None,
    }
}

/// The pid recorded in a pid file.
pub fn parse_pid_file(text: &str) -> (r: Option<u32>)
    ensures
        match file_number(text@, u32::MAX as nat) {
            Some(v) => r == Some(v as u32),
            None => r is None,
        },
{
    match parse_trimmed(text, u32::MAX as u64) {
        Some(v) => Some(v as u32),
        None => None,
    }
}

/// Decimal text of a number.
pub fn number_text(n: u64) -> (r: String)
    ensures
        r@ == dec_seq(n as nat),
{
    string_from_chars(&dec_chars(n))
}

/// The URL of `path` on the daemon listening on `port`.
pub open spec fn daemon_url_spec(port: nat, path: Seq<char>) -> Seq<char> {
    "http://127.0.0.1:"@ + dec_seq(port) + path
}

/// `http://127.0.0.1:<port><path>`.
pub fn daemon_url(port: u16, path: &str) -> (r: String)
    ensures
        r@ == daemon_url_spec(port as nat, path@),
{
    let mut out = chars_of("http://127.0.0.1:");
    push_chars(&mut out, &dec_chars(port as u64));
    push_str_chars(&mut out, path);
    string_from_chars(&out)
}

/// The UTF-8 encoding of a character.
pub open spec fn utf8_char(c: char) -> Seq<u8> {
    let u = c as nat;
    if u < 0x80 {
        seq![u as u8]
    } else if u < 0x800 {
        seq![(0xC0 + u / 64) as u8, (0x80 + u % 64) as u8]
    } else if u < 0x10000 {
        seq![(0xE0 + u / 4096) as u8, (0x80 + (u / 64) % 64) as u8, (0x80 + u % 64) as u8]
    } else {
        seq![
            (0xF0 + u / 262144) as u8,
            (0x80 + (u / 4096) % 64) as u8,
            (0x80 + (u / 64) % 64) as u8,
            (0x80 + u % 64) as u8,
        ]
    }
}

/// The UTF-8 encoding of a text.
pub open spec fn utf8_text(s: Seq<char>) -> Seq<u8>
    decreases s.len(),
{
    if s.len() == 0 {
        Seq::empty()
    } else {
        utf8_text(s.drop_last()) + utf8_char(s.last())
    }
}

/// A byte that URL encoding keeps: an ASCII letter or digit, `-`, `.`, `_`
/// or `~`.
pub open spec fn url_safe_byte(b: u8) -> bool {
    ||| 0x30 <= b <= 0x39
    ||| 0x41 <= b <= 0x5A
    ||| 0x61 <= b <= 0x7A
    ||| b == 0x2D || b == 0x2E || b == 0x5F || b == 0x7E
}

/// An uppercase hexadecimal digit for a value below sixteen.
pub open spec fn hex_upper(d: nat) -> char {
    if d < 10 {
        (('0' as u32) + d) as char
    } else {
        (('A' as u32) + d - 10) as char
    }
}

/// Percent-encoding of bytes: safe bytes stay as their character, every
/// other byte becomes `%` and two uppercase hexadecimal digits.
pub open spec fn url_encode_bytes(b: Seq<u8>) -> Seq<char>
    decreases b.len(),
{
    if b.len() == 0 {
        Seq::empty()
    } else {
        let x = b.last();
        url_encode_bytes(b.drop_last()) + if url_safe_byte(x) {
            seq![x as char]
        } else {
            seq!['%', hex_upper(x as nat / 16), hex_upper(x as nat % 16)]
        }
    }
}

/// The percent-encoding that `urlencoding::encode` applies to a string: that
/// of its UTF-8 bytes.
pub open spec fn url_encoded(s: Seq<char>) -> Seq<char> {
    url_encode_bytes(utf8_text(s))
}

/// `urlencoding::encode`: percent-encodes every byte of the UTF-8 text except
/// ASCII letters, digits and `-`, `_`, `.`, `~`, with uppercase hexadecimal
/// digits, as `url_encoded` states it.
#[verifier::external_body]
fn url_encode(s: &str) -> (r: String)
    ensures
        r@ == url_encoded(s@),
{
    urlencoding::encode(s).into_owned()
}

/// The listing request path with an already encoded filter.
pub fn stickers_path_encoded(encoded_filter: Option<&str>) -> (r: String)
    ensures
        r@ == match encoded_filter {
            Some(e) => "/stickers?filter="@ + e@,
            None => "/stickers"@,
        },
{
    match encoded_filter {
        Some(e) => {
            let mut out = chars_of("/stickers?filter=");
            push_str_chars(&mut out, e);
            string_from_chars(&out)
        },
        None => string_from_chars(&chars_of("/stickers")),
    }
}

/// The listing request path, `/stickers` or `/stickers?filter=<encoded>`.
pub fn stickers_path(filter: Option<&str>) -> (r: String)
    ensures
        r@ == match filter {
            Some(f) => "/stickers?filter="@ + url_encoded(f@),
            None => "/stickers"@,
        },
{
    match filter {
        Some(f) => {
            let e = url_encode(f);
            stickers_path_encoded(Some(e.as_str()))
        },
        None => stickers_path_encoded(None),
    }
}

/// What `status` reports, from the pid and port files, whether the pid is
/// alive, and the health answer (`Some(version)` when the daemon answered,
/// the version being `None` when the answer named none).
pub open spec fn status_spec(
    pid: Option<u32>,
    port: Option<u16>,
    alive: bool,
    health: Option<Option<Seq<char>>>,
) -> Seq<Seq<char>> {
    match (pid, port) {
        (Some(p), Some(q)) => if alive {
            match health {
                Some(v) => seq![
                    "daemon running"@,
                    "  pid:     "@ + dec_seq(p as nat),
                    "  port:    "@ + dec_seq(q as nat),
                    "  version: "@ + match v {
                        Some(s) => s,
                        None => "?"@,
                    },
                ],
                None => seq!["daemon pid "@ + dec_seq(p as nat) + " alive but HTTP not responding"@],
            }
        } else {
            seq!["daemon not running"@]
        },
        _ => seq!["daemon not running"@],
    }
}

fn line_with_number(prefix: &str, n: u64, suffix: &str) -> (r: String)
    ensures
        r@ == prefix@ + dec_seq(n as nat) + suffix@,
{
    let mut out = chars_of(prefix);
    push_chars(&mut out, &dec_chars(n));
    push_str_chars(&mut out, suffix);
    string_from_chars(&out)
}

fn prefixed_number(prefix: &str, n: u64) -> (r: String)
    ensures
        r@ == prefix@ + dec_seq(n as nat),
{
    let mut out = chars_of(prefix);
    push_chars(&mut out, &dec_chars(n));
    string_from_chars(&out)
}

fn lit(s: &str) -> (r: String)
    ensures
        r@ == s@,
{
    string_from_chars(&chars_of(s))
}

/// The lines `xbark status` prints.
pub fn status_lines(
    pid: Option<u32>,
    port: Option<u16>,
    alive: bool,
    health: Option<Option<&str>>,
) -> (r: Vec<String>)
    ensures
        r@.map_values(|s: String| s@) == status_spec(
            pid,
            port,
            alive,
            match health {
                Some(Some(v)) => Some(Some(v@)),
                Some(None) => Some(None),
                None => None,
            },
        ),
{
    let mut out: Vec<String> = Vec::new();
    match (pid, port) {
        (Some(p), Some(q)) => {
            if alive {
                match health {
                    Some(v) => {
                        out.push(lit("daemon running"));
                        out.push(prefixed_number("  pid:     ", p as u64));
                        out.push(prefixed_number("  port:    ", q as u64));
                        let mut l = chars_of("  version: ");
                        match v {
                            Some(s) => push_str_chars(&mut l, s),
                            None => push_str_chars(&mut l, "?"),
                        }
                        out.push(string_from_chars(&l));
                    },
                    None => {
                        out.push(
                            line_with_number("daemon pid ", p as u64, " alive but HTTP not responding"),
                        );
                    },
                }
            } else {
                out.push(lit("daemon not running"));
            }
        },
        _ => {
            out.push(lit("daemon not running"));
        },
    }
    proof {
        assert(out@.map_values(|s: String| s@) =~= status_spec(
            pid,
            port,
            alive,
            match health {
                Some(Some(v)) => Some(Some(v@)),
                Some(None) => Some(None),
                None => None,
            },
        ));
    }
    out
}

/// What the client does after a health probe while making sure the daemon
/// runs.
#[derive(Debug, Clone, Copy, PartialEq, Eq, Structural)]
pub enum StartStep {
    /// The daemon answers: go on.
    Ready,
    /// Start the daemon, wait one poll interval and probe again.
    Spawn,
    /// Wait one poll interval and probe again; the number counts the probes
    /// made since the start, this one included.
    Poll(u32),
    /// Give up with `START_TIMEOUT_MESSAGE`.
    GiveUp,
}

/// The next step after a health probe (`healthy`: the port file was read
/// and the daemon answered). `polls` is `None` for the probe before any
/// start, and `Some(k)` after the `k`-th probe since the daemon was started:
/// the client starts the daemon once and probes it up to
/// `START_POLL_ATTEMPTS` times.
pub fn start_step(polls: Option<u32>, healthy: bool) -> (r: StartStep)
    ensures
        r == if healthy {
            StartStep::Ready
        } else {
            match polls {
                None => StartStep::Spawn,
                Some(k) => if k < START_POLL_ATTEMPTS {
                    StartStep::Poll((k + 1) as u32)
                } else {
                    StartStep::GiveUp
                },
            }
        },
{
    if healthy {
        return StartStep::Ready;
    }
    match polls {
        None => StartStep::Spawn,
        Some(k) => if k < START_POLL_ATTEMPTS {
            StartStep::Poll(k + 1)
        } else {
            StartStep::GiveUp
        },
    }
}

/// What `stop` does first.
#[derive(Debug, Clone, Copy, PartialEq, Eq, Structural)]
pub enum StopPlan {
    /// No pid file: print that the daemon is not running.
    NotRunning,
    /// The recorded process is gone: remove the pid and port files.
    Stale,
    /// Send `SIGTERM` to the process and wait for it to exit.
    Terminate(u32),
}

/// `stop`'s first decision, from the pid file and whether that pid is alive.
pub fn stop_plan(pid: Option<u32>, alive: bool) -> (r: StopPlan)
    ensures
        r == match pid {
            None => StopPlan::NotRunning,
            Some(p) => if alive {
                StopPlan::Terminate(p)
            } else {
                StopPlan::Stale
            },
        },
{
    match pid {
        None => StopPlan::NotRunning,
        Some(p) => if alive {
            StopPlan::Terminate(p)
        } else {
            StopPlan::Stale
        },
    }
}

/// What `stop` prints for a plan that needs no signal.
pub fn stop_plan_message(plan: StopPlan) -> (r: Option<String>)
    ensures
        match plan {
            StopPlan::NotRunning => r matches Some(m) && m@ == "daemon not running"@,
            StopPlan::Stale => r matches Some(m) && m@ == "daemon not running (stale pid file)"@,
            StopPlan::Terminate(_) => r is None,
        },
{
    match plan {
        StopPlan::NotRunning => Some(lit("daemon not running")),
        StopPlan::Stale => Some(lit("daemon not running (stale pid file)")),
        StopPlan::Terminate(_) => None,
    }
}

/// What `stop` prints after signalling `pid`, by whether it exited in time.
pub fn stop_result_message(pid: u32, exited: bool) -> (r: String)
    ensures
        r@ == if exited {
            "stopped (pid "@ + dec_seq(pid as nat) + ")"@
        } else {
            "daemon still running after SIGTERM, check manually (pid "@ + dec_seq(pid as nat)
                + ")"@
        },
{
    if exited {
        line_with_number("stopped (pid ", pid as u64, ")")
    } else {
        line_with_number(
            "daemon still running after SIGTERM, check manually (pid ",
            pid as u64,
            ")",
        )
    }
}

/// The outcome of `xbark send` from the daemon's answer: with `ok`, the line
/// to print (`sent: <file name>` or `sent`); otherwise the error to report
/// (`unknown error` when the answer named none).
pub fn send_outcome(ok: bool, filename: Option<&str>, error: Option<&str>) -> (r: Result<
    String,
    String,
>)
    ensures
        match r {
            Ok(line) => ok && line@ == match filename {
                Some(f) => "sent: "@ + f@,
                None => "sent"@,
            },
            Err(e) => !ok && e@ == match error {
                Some(m) => m@,
                None => "unknown error"@,
            },
        },
{
    if ok {
        match filename {
            Some(f) => {
                let mut l = chars_of("sent: ");
                push_str_chars(&mut l, f);
                Ok(string_from_chars(&l))
            },
            None => Ok(lit("sent")),
        }
    } else {
        match error {
            Some(m) => Err(lit(m)),
            None => Err(lit("unknown error")),
        }
    }
}

/// The width a `COLUMNS` value gives: a positive decimal number.
pub open spec fn positive_width(s: Seq<char>) -> Option<nat> {
    match parse_uint_spec(s, usize::MAX as nat) {
        Ok(n) => if n > 0 {
            Some(n)
        } else {
            None
        },
        Err(_) => None,
    }
}

/// The width that the `COLUMNS` variable gives, if it holds a positive number.
pub fn columns_width(columns_env: Option<&str>) -> (r: Option<usize>)
    ensures
        r == match columns_env {
            Some(s) => match positive_width(s@) {
                Some(n) => Some(n as usize),
                None => None,
            },
            None => None,
        },
{
    match columns_env {
        Some(s) => {
            let cs = chars_of(s);
            match parse_uint(&cs, usize::MAX as u64) {
                Ok(n) => if n > 0 {
                    Some(n as usize)
                } else {
                    None
                },
                Err(_) => None,
            }
        },
        None => None,
    }
}

/// The terminal width: `COLUMNS` when it is a positive number, else the
/// trimmed output of `tput cols` when that is, else 120.
pub open spec fn terminal_width_spec(columns_env: Option<Seq<char>>, tput_output: Option<Seq<char>>) -> nat {
    match columns_env {
        Some(s) if positive_width(s) is Some => positive_width(s)->0,
        _ => match tput_output {
            Some(t) if positive_width(trim_seq(t)) is Some => positive_width(trim_seq(t))->0,
            _ => 120,
        },
    }
}

/// The terminal width from `COLUMNS` and the output of `tput cols`.
pub fn terminal_width(columns_env: Option<&str>, tput_output: Option<&str>) -> (r: usize)
    ensures
        r == terminal_width_spec(
            match columns_env {
                Some(s) => Some(s@),
                None => None,
            },
            match tput_output {
                Some(t) => Some(t@),
                None => None,
            },
        ),
{
    proof {
        match columns_env {
            Some(s) => crate::num::lemma_parse_uint_bound(s@, usize::MAX as nat),
            None => {},
        }
        match tput_output {
            Some(t) => crate::num::lemma_parse_uint_bound(trim_seq(t@), usize::MAX as nat),
            None => {},
        }
    }
    match columns_width(columns_env) {
        Some(n) => n,
        None => {
            match tput_output {
                Some(t) => {
                    let tt = trim_chars(&chars_of(t));
                    match parse_uint(&tt, usize::MAX as u64) {
                        Ok(n) => if n > 0 {
                            n as usize
                        } else {
                            120
                        },
                        Err(_) => 120,
                    }
                },
                None => 120,
            }
        },
    }
}

/// The `autostart` subcommands.
#[derive(Debug, Clone, Copy, PartialEq, Eq, Structural)]
pub enum AutostartAction {
    /// Install launchd plist, daemon starts at login
    Install,
    /// Remove launchd plist
    Uninstall,
    /// Show autostart status
    Status,
}

/// The launchd label of the daemon.
pub const LAUNCHD_LABEL: &'static str = "sh.w-mai.xbark";

/// Autostart is offered on macOS only: elsewhere the action is refused.
pub fn autostart(action: AutostartAction, on_macos: bool) -> (r: Result<AutostartAction, String>)
    ensures
        on_macos ==> r == Ok::<AutostartAction, String>(action),
        !on_macos ==> (r matches Err(m) && m@ == "autostart is only implemented for macOS right now"@),
{
    if on_macos {
        Ok(action)
    } else {
        Err(lit("autostart is only implemented for macOS right now"))
    }
}

/// The launchd property list that starts `<exe> daemon` at login, logging to
/// `log`.
pub open spec fn plist_spec(label: Seq<char>, exe: Seq<char>, log: Seq<char>) -> Seq<char> {
    "<?xml version=\"1.0\" encoding=\"UTF-8\"?>\n<!DOCTYPE plist PUBLIC \"-//Apple//DTD PLIST 1.0//EN\" \"http://www.apple.com/DTDs/PropertyList-1.0.dtd\">\n<plist version=\"1.0\">\n<dict>\n  <key>Label</key><string>"@
        + label
        + "</string>\n  <key>ProgramArguments</key>\n  <array>\n    <string>"@
        + exe
        + "</string>\n    <string>daemon</string>\n  </array>\n  <key>RunAtLoad</key><true/>\n  <key>KeepAlive</key><false/>\n  <key>StandardOutPath</key><string>"@
        + log
        + "</string>\n  <key>StandardErrorPath</key><string>"@
        + log
        + "</string>\n  <key>ProcessType</key><string>Interactive</string>\n</dict>\n</plist>\n"@
}

/// The property list text for the autostart entry.
pub fn launchd_plist(label: &str, exe: &str, log: &str) -> (r: String)
    ensures
        r@ == plist_spec(label@, exe@, log@),
{
    let mut out = chars_of(
        "<?xml version=\"1.0\" encoding=\"UTF-8\"?>\n<!DOCTYPE plist PUBLIC \"-//Apple//DTD PLIST 1.0//EN\" \"http://www.apple.com/DTDs/PropertyList-1.0.dtd\">\n<plist version=\"1.0\">\n<dict>\n  <key>Label</key><string>",
    );
    push_str_chars(&mut out, label);
    push_str_chars(&mut out, "</string>\n  <key>ProgramArguments</key>\n  <array>\n    <string>");
    push_str_chars(&mut out, exe);
    push_str_chars(
        &mut out,
        "</string>\n    <string>daemon</string>\n  </array>\n  <key>RunAtLoad</key><true/>\n  <key>KeepAlive</key><false/>\n  <key>StandardOutPath</key><string>",
    );
    push_str_chars(&mut out, log);
    push_str_chars(&mut out, "</string>\n  <key>StandardErrorPath</key><string>");
    push_str_chars(&mut out, log);
    push_str_chars(
        &mut out,
        "</string>\n  <key>ProcessType</key><string>Interactive</string>\n</dict>\n</plist>\n",
    );
    string_from_chars(&out)
}

/// The file name of the property list, `<label>.plist`.
pub fn plist_file_name(label: &str) -> (r: String)
    ensures
        r@ == label@ + ".plist"@,
{
    let mut out = chars_of(label);
    push_str_chars(&mut out, ".plist");
    string_from_chars(&out)
}

/// The launchd domain of a user, `gui/<uid>`.
pub fn launchctl_domain(uid: u32) -> (r: String)
    ensures
        r@ == "gui/"@ + dec_seq(uid as nat),
{
    prefixed_number("gui/", uid as u64)
}

} // verus!
