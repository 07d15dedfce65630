//! Configuration defaults, file locations and the choice of sticker
//! directory.
//!
//! Loading `config.toml` and probing the file system are the caller's.

use vstd::prelude::*;
use crate::paths::{join_spec, path_join};
use crate::text::{chars_of, string_from_chars};

verus! {

/// Name of the configuration file.
pub const CONFIG_FILE_NAME: &'static str = "config.toml";

/// Name of the sticker directory inside the configuration directory, and of
/// the bundled one next to the executable.
pub const STICKERS_DIR_NAME: &'static str = "stickers";

/// Default popup size in pixels (square).
pub const DEFAULT_SIZE: u32 = 256;

/// Default anchor position.
pub const DEFAULT_POSITION: &'static str = "bottom-right";

/// Default number of stickers visible at once.
pub const DEFAULT_MAX_VISIBLE: usize = 5;

/// Default gap between stacked stickers in pixels.
pub const DEFAULT_GAP: u32 = 12;

/// Default margin from the screen edge in pixels.
pub const DEFAULT_MARGIN: u32 = 32;

/// Default HTTP port (0 = chosen by the system).
pub const DEFAULT_PORT: u16 = 0;

/// The configuration file inside the configuration directory.
pub fn config_path(config_dir: &str) -> (r: String)
    ensures
        r@ == join_spec(config_dir@, CONFIG_FILE_NAME@),
{
    path_join(config_dir, CONFIG_FILE_NAME)
}

/// The configuration directory used when the platform names none:
/// `<home>/.config/xbark`.
pub fn fallback_config_dir(home: &str) -> (r: String)
    ensures
        r@ == join_spec(join_spec(home@, ".config"@), "xbark"@),
{
    let c = path_join(home, ".config");
    path_join(c.as_str(), "xbark")
}

/// A candidate directory and whether it exists.
pub struct DirProbe {
    pub path: String,
    pub exists: bool,
}

/// The sticker directory, by priority: the configured one if it exists; the
/// user's `<config dir>/stickers` if it exists; `stickers` next to the real
/// executable if it exists; `stickers` at the repository root of a
/// development build if it exists; else the user's directory. The flag tells
/// that a configured directory is missing (the caller warns).
pub open spec fn choose_dir_spec(
    configured: Option<(Seq<char>, bool)>,
    user: (Seq<char>, bool),
    bundled: Option<(Seq<char>, bool)>,
    dev: Option<(Seq<char>, bool)>,
) -> (Seq<char>, bool) {
    let warn = configured matches Some(c) && !c.1;
    match configured {
        Some((p, true)) => (p, false),
        _ => if user.1 {
            (user.0, warn)
        } else {
            match (bundled, dev) {
                (Some((b, true)), _) => (b, warn),
                (_, Some((d, true))) => (d, warn),
                _ => (user.0, warn),
            }
        },
    }
}

pub open spec fn probe_view(p: Option<DirProbe>) -> Option<(Seq<char>, bool)> {
    match p {
        Some(d) => Some((d.path@, d.exists)),
        None => None,
    }
}

/// Picks the sticker directory from the probed candidates.
pub fn choose_sticker_dir(
    configured: Option<DirProbe>,
    user: DirProbe,
    bundled: Option<DirProbe>,
    dev: Option<DirProbe>,
) -> (r: (String, bool))
    ensures
        (r.0@, r.1) == choose_dir_spec(
            probe_view(configured),
            (user.path@, user.exists),
            probe_view(bundled),
            probe_view(dev),
        ),
{
    let warn = match &configured {
        Some(c) => !c.exists,
        None => false,
    };
    match configured {
        Some(c) => if c.exists {
            return (c.path, false);
        },
        None => {},
    }
    if user.exists {
        return (user.path, warn);
    }
    match bundled {
        Some(b) => if b.exists {
            return (b.path, warn);
        },
        None => {},
    }
    match dev {
        Some(d) => if d.exists {
            return (d.path, warn);
        },
        None => {},
    }
    (user.path, warn)
}

} // verus!
