//! Decisions of the daemon at start-up, and the names it publishes.

use vstd::prelude::*;
use crate::num::{dec_chars, dec_seq};
use crate::text::{chars_of, push_chars, push_str_chars, string_from_chars};

verus! {

/// The mDNS service type the daemon publishes.
pub const SERVICE_TYPE: &'static str = "_xbark._tcp.local.";

/// The address published for the service; the daemon listens there only.
pub const SERVICE_ADDRESS: &'static str = "127.0.0.1";

/// What start-up finds about an earlier daemon.
#[derive(Debug, Clone, Copy, PartialEq, Eq, Structural)]
pub enum StartCheck {
    /// No pid file: go on.
    Fresh,
    /// The recorded process is gone: remove its pid and port files, go on.
    Stale,
    /// The recorded process is alive: refuse to start.
    AlreadyRunning(u32),
}

/// Start-up's check of the pid file (`existing_pid`) and whether that
/// process is alive.
pub fn start_check(existing_pid: Option<u32>, alive: bool) -> (r: StartCheck)
    ensures
        r == match existing_pid {
            None => StartCheck::Fresh,
            Some(p) => if alive {
                StartCheck::AlreadyRunning(p)
            } else {
                StartCheck::Stale
            },
        },
{
    match existing_pid {
        None => StartCheck::Fresh,
        Some(p) => if alive {
            StartCheck::AlreadyRunning(p)
        } else {
            StartCheck::Stale
        },
    }
}

/// The error of a start refused because `pid` runs.
pub fn already_running_message(pid: u32) -> (r: String)
    ensures
        r@ == "xbark daemon already running (pid "@ + dec_seq(pid as nat)
            + "). use `xbark stop` first."@,
{
    let mut out = chars_of("xbark daemon already running (pid ");
    push_chars(&mut out, &dec_chars(pid as u64));
    push_str_chars(&mut out, "). use `xbark stop` first.");
    string_from_chars(&out)
}

/// The port to listen on: the command line's, else the configured one
/// (0 lets the system pick).
pub fn desired_port(port_override: Option<u16>, configured: u16) -> (r: u16)
    ensures
        r == match port_override {
            Some(p) => p,
            None => configured,
        },
{
    match port_override {
        Some(p) => p,
        None => configured,
    }
}

/// The mDNS instance name of the daemon with process id `pid`.
pub fn mdns_instance_name(pid: u32) -> (r: String)
    ensures
        r@ == "xbark-"@ + dec_seq(pid as nat),
{
    let mut out = chars_of("xbark-");
    push_chars(&mut out, &dec_chars(pid as u64));
    string_from_chars(&out)
}

/// The private mDNS host name of the daemon with process id `pid`; it keeps
/// clear of the machine's own host name.
pub fn mdns_host_name(pid: u32) -> (r: String)
    ensures
        r@ == "xbark-"@ + dec_seq(pid as nat) + ".local."@,
{
    let mut out = chars_of("xbark-");
    push_chars(&mut out, &dec_chars(pid as u64));
    push_str_chars(&mut out, ".local.");
    string_from_chars(&out)
}

} // verus!
