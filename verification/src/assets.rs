//! The bundled sticker pack: its fingerprint, and the decisions that say
//! whether a sticker directory gets the pack unpacked into it.
//!
//! Reading the marker file, listing the directory and unpacking the archive
//! are done by the caller; the functions here decide from what it observed.

use vstd::prelude::*;
use crate::num::{dec_chars, dec_seq, hex_chars_fixed, hex_fixed};
use crate::text::{chars_eq, chars_of, string_from_chars, trim_chars, trim_seq};

verus! {

/// FNV-1a offset basis.
pub const FNV_OFFSET: u64 = 0xcbf29ce484222325;

/// FNV-1a prime.
pub const FNV_PRIME: u64 = 0x100000001b3;

/// Name of the marker file that records which pack version was unpacked.
pub const VERSION_MARKER: &'static str = ".xbark-pack-version";

/// 64-bit FNV-1a hash of `bytes`.
pub open spec fn fnv1a(bytes: Seq<u8>) -> u64
    decreases bytes.len(),
{
    if bytes.len() == 0 {
        FNV_OFFSET
    } else {
        (fnv1a(bytes.drop_last()) ^ (bytes.last() as u64)).wrapping_mul(FNV_PRIME)
    }
}

/// The fingerprint text of a pack: the FNV-1a hash as sixteen lowercase
/// hexadecimal digits, a `-`, and the pack's length in decimal.
pub open spec fn fingerprint_seq(bytes: Seq<u8>) -> Seq<char> {
    hex_fixed(fnv1a(bytes) as nat, 16) + seq!['-'] + dec_seq(bytes.len())
}

/// FNV-1a hash of `blob`.
pub fn fnv1a_hash(blob: &[u8]) -> (h: u64)
    ensures
        h == fnv1a(blob@),
{
    let mut hash: u64 = FNV_OFFSET;
    let mut i: usize = 0;
    while i < blob.len()
        invariant
            0 <= i <= blob@.len(),
            hash == fnv1a(blob@.take(i as int)),
        decreases blob@.len() - i,
    {
        proof {
            assert(blob@.take(i + 1).drop_last() =~= blob@.take(i as int));
        }
        hash = hash ^ (blob[i] as u64);
        hash = hash.wrapping_mul(FNV_PRIME);
        i = i + 1;
    }
    proof {
        assert(blob@.take(blob@.len() as int) =~= blob@);
    }
    hash
}

/// The fingerprint of the bundled pack `blob`: `"{:016x}-{}"` of its hash
/// and its length. The pack itself is embedded by the program that links
/// this library.
pub fn bundled_pack_fingerprint(blob: &[u8]) -> (r: String)
    ensures
        r@ == fingerprint_seq(blob@),
{
    let h = fnv1a_hash(blob);
    let mut out = hex_chars_fixed(h, 16);
    out.push('-');
    let len = dec_chars(blob.len() as u64);
    let mut i: usize = 0;
    let ghost base = out@;
    while i < len.len()
        invariant
            0 <= i <= len@.len(),
            out@ == base + len@.take(i as int),
        decreases len@.len() - i,
    {
        out.push(len[i]);
        i = i + 1;
        proof {
            assert(len@.take(i as int) =~= len@.take(i - 1 as int).push(len@[i - 1]));
        }
    }
    proof {
        assert(len@.take(len@.len() as int) =~= len@);
        assert(out@ =~= fingerprint_seq(blob@));
    }
    string_from_chars(&out)
}

/// What became of a sticker directory when the bundled pack was checked.
#[derive(Debug, Clone, Copy, PartialEq, Eq, Structural)]
pub enum UnpackOutcome {
    /// Pack was already at the current version; nothing changed.
    AlreadyCurrent,
    /// We unpacked the bundled pack into the directory.
    Unpacked,
    /// Directory has user-owned content (no marker); we did not touch it.
    UserOwnedSkipped,
    /// This binary was built without a bundled pack.
    NoBundle,
}

/// The first decision: `NoBundle` for an empty pack, `AlreadyCurrent` when
/// the marker file was read and its trimmed text equals the fingerprint, and
/// `None` (go on) otherwise.
pub open spec fn check_current_spec(
    bundle_len: nat,
    marker_text: Option<Seq<char>>,
    fingerprint: Seq<char>,
) -> Option<UnpackOutcome> {
    if bundle_len == 0 {
        Some(UnpackOutcome::NoBundle)
    } else if marker_text matches Some(t) && trim_seq(t) == fingerprint {
        Some(UnpackOutcome::AlreadyCurrent)
    } else {
        None
    }
}

/// Whether the trimmed marker text equals the fingerprint.
pub fn marker_matches(marker_text: &str, fingerprint: &str) -> (r: bool)
    ensures
        r == (trim_seq(marker_text@) == fingerprint@),
{
    let t = trim_chars(&chars_of(marker_text));
    let f = chars_of(fingerprint);
    chars_eq(&t, &f)
}

/// The first step of `ensure_unpacked`, from the pack's length and the
/// marker file's text (`None` where it could not be read).
pub fn check_current(bundle_len: usize, marker_text: Option<&str>, fingerprint: &str) -> (r:
    Option<UnpackOutcome>)
    ensures
        r == check_current_spec(
            bundle_len as nat,
            match marker_text {
                Some(t) => Some(t@),
                None => None,
            },
            fingerprint@,
        ),
{
    if bundle_len == 0 {
        return Some(UnpackOutcome::NoBundle);
    }
    match marker_text {
        Some(t) => {
            if marker_matches(t, fingerprint) {
                Some(UnpackOutcome::AlreadyCurrent)
            } else {
                None
            }
        },
        None => None,
    }
}

/// Some entry of the directory is not the version marker.
pub open spec fn has_user_content_spec(names: Seq<Seq<char>>) -> bool {
    exists|i: int| 0 <= i < names.len() && names[i] != VERSION_MARKER@
}

/// Whether a directory whose entries are named `names` holds anything
/// besides the version marker.
pub fn has_user_content(names: &Vec<String>) -> (r: bool)
    ensures
        r == has_user_content_spec(names@.map_values(|n: String| n@)),
{
    let marker = chars_of(VERSION_MARKER);
    let ghost views = names@.map_values(|n: String| n@);
    let mut i: usize = 0;
    while i < names.len()
        invariant
            0 <= i <= names@.len(),
            marker@ == VERSION_MARKER@,
            views == names@.map_values(|n: String| n@),
            forall|k: int| 0 <= k < i ==> views[k] == VERSION_MARKER@,
        decreases names@.len() - i,
    {
        let n = chars_of(names[i].as_str());
        if !chars_eq(&n, &marker) {
            proof {
                assert(views[i as int] != VERSION_MARKER@);
            }
            return true;
        }
        i = i + 1;
    }
    false
}

/// The second step: a directory that exists, holds user content, and has no
/// marker file is left alone.
pub fn is_user_owned(target_exists: bool, entry_names: Option<&Vec<String>>, marker_exists: bool) -> (r:
    bool)
    ensures
        r == (target_exists && match entry_names {
            Some(names) => has_user_content_spec(names@.map_values(|n: String| n@)),
            None => false,
        } && !marker_exists),
{
    if !target_exists {
        return false;
    }
    let user = match entry_names {
        Some(names) => has_user_content(names),
        None => false,
    };
    user && !marker_exists
}

} // verus!
