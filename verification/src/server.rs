//! Request handling of the daemon's HTTP server: what a send request shows
//! or why it is refused, the image data URL, the payload handed to the
//! overlay, and the answers.
//!
//! Checking and reading the image file, showing the payload and the HTTP
//! framing are the caller's.

use vstd::prelude::*;
use crate::resolver::{Resolver, StickerMeta, StickerMetaView, resolves_to};
use crate::paths::join_spec;
use crate::release::split_spec;
use crate::text::{chars_eq, chars_of, lowercase, push_str_chars, string_from_chars, to_lowercase};

verus! {

/// HTTP status of a shown sticker.
pub const STATUS_OK: u16 = 200;

/// HTTP status of a request that names neither keyword nor path.
pub const STATUS_BAD_REQUEST: u16 = 400;

/// HTTP status of a keyword or file that was not found.
pub const STATUS_NOT_FOUND: u16 = 404;

/// HTTP status of a failure to read the image or to show it.
pub const STATUS_INTERNAL_ERROR: u16 = 500;

/// What the overlay is asked to show.
#[derive(Debug, Clone)]
pub struct StickerPayload {
    pub id: String,
    pub image_url: String,
    pub duration_ms: u32,
    pub size: u32,
    pub position: String,
    pub description: String,
    pub ai_name: String,
}

/// The answer to a send request.
#[derive(Debug, Clone)]
pub struct SendResponse {
    pub ok: bool,
    pub id: String,
    pub sticker: Option<StickerMeta>,
    pub error: Option<String>,
}

/// The query of a listing request.
#[derive(Debug, Clone)]
pub struct ListQuery {
    pub filter: Option<String>,
}

/// The content of an optional sticker.
pub open spec fn opt_meta(m: Option<StickerMeta>) -> Option<StickerMetaView> {
    match m {
        Some(x) => Some(x@),
        None => None,
    }
}

/// How a send request goes on.
#[derive(Debug)]
pub enum SendPlan {
    /// Show the image at `path`, found for `sticker` when a keyword named it.
    Show { path: String, sticker: Option<StickerMeta> },
    /// Refuse with an HTTP status and an error message.
    Reject { status: u16, error: String },
}

/// The plan for a request naming `keyword` and/or `path`: a keyword is
/// resolved (and refused with 404 when nothing matches); otherwise a path is
/// used as it is; a request with neither is refused with 400.
pub open spec fn plan_ok(
    entries: Seq<(Seq<char>, StickerMetaView)>,
    dir: Seq<char>,
    keyword: Option<Seq<char>>,
    path: Option<Seq<char>>,
    plan: SendPlan,
) -> bool {
    match keyword {
        Some(kw) => match plan {
            SendPlan::Show { path: p, sticker: Some(m) } => resolves_to(entries, kw, Some(m@))
                && p@ == join_spec(dir, m@.filename),
            SendPlan::Reject { status, error } => resolves_to(entries, kw, None) && status
                == STATUS_NOT_FOUND && error@ == "no sticker matches keyword: "@ + kw,
            _ => false,
        },
        None => match path {
            Some(p) => plan matches SendPlan::Show { path: q, sticker: None } && q@ == p,
            None => plan matches SendPlan::Reject { status, error } && status == STATUS_BAD_REQUEST
                && error@ == "either keyword or path must be provided"@,
        },
    }
}

/// Decides what a send request shows.
pub fn plan_send(resolver: &Resolver, keyword: Option<&str>, path: Option<&str>) -> (r: SendPlan)
    ensures
        plan_ok(
            resolver@.entries,
            resolver@.dir,
            match keyword {
                Some(k) => Some(k@),
                None => None,
            },
            match path {
                Some(p) => Some(p@),
                None => None,
            },
            r,
        ),
{
    match keyword {
        Some(kw) => match resolver.resolve(kw) {
            Some(m) => {
                let p = resolver.resolve_path(&m);
                SendPlan::Show { path: p, sticker: Some(m) }
            },
            None => {
                let mut e = chars_of("no sticker matches keyword: ");
                push_str_chars(&mut e, kw);
                SendPlan::Reject { status: STATUS_NOT_FOUND, error: string_from_chars(&e) }
            },
        },
        None => match path {
            Some(p) => SendPlan::Show { path: string_from_chars(&chars_of(p)), sticker: None },
            None => SendPlan::Reject {
                status: STATUS_BAD_REQUEST,
                error: string_from_chars(&chars_of("either keyword or path must be provided")),
            },
        },
    }
}

/// A hyphenated lowercase UUID: 36 characters, `-` at positions 8, 13, 18
/// and 23, lowercase hexadecimal digits elsewhere.
pub open spec fn is_hyphenated_uuid(s: Seq<char>) -> bool {
    &&& s.len() == 36
    &&& forall|i: int|
        0 <= i < 36 ==> if i == 8 || i == 13 || i == 18 || i == 23 {
            s[i] == '-'
        } else {
            ('0' <= #[trigger] s[i] <= '9') || ('a' <= s[i] <= 'f')
        }
}

/// `uuid::Uuid::new_v4().to_string()`: a random version-4 UUID in hyphenated
/// lowercase form. Which UUID comes back is random and not stated; the call
/// panics only if the operating system's random source fails.
#[verifier::external_body]
fn new_sticker_id() -> (r: String)
    ensures
        is_hyphenated_uuid(r@),
{
    uuid::Uuid::new_v4().to_string()
}

/// Starts a send request: a fresh request id, and the plan.
pub fn begin_send(resolver: &Resolver, keyword: Option<&str>, path: Option<&str>) -> (r: (
    String,
    SendPlan,
))
    ensures
        is_hyphenated_uuid(r.0@),
        plan_ok(
            resolver@.entries,
            resolver@.dir,
            match keyword {
                Some(k) => Some(k@),
                None => None,
            },
            match path {
                Some(p) => Some(p@),
                None => None,
            },
            r.1,
        ),
{
    let id = new_sticker_id();
    let plan = plan_send(resolver, keyword, path);
    (id, plan)
}

/// The names among the components of a Unix path (`Path::components`): the
/// pieces between `/`, without the empty pieces of a root, of repeated or
/// trailing separators, and without `.` pieces.
pub open spec fn path_names(p: Seq<char>) -> Seq<Seq<char>> {
    split_spec(p, '/').filter(|c: Seq<char>| c.len() > 0 && c != seq!['.'])
}

/// `Path::file_name`: the last component when it is a name, `None` when
/// there is none or the path ends in `..`.
pub open spec fn path_file_name(p: Seq<char>) -> Option<Seq<char>> {
    let names = path_names(p);
    if names.len() == 0 || names.last() == seq!['.', '.'] {
        None
    } else {
        Some(names.last())
    }
}

/// The position of the last `.` in `s`.
pub open spec fn last_dot(s: Seq<char>) -> Option<int>
    decreases s.len(),
{
    if s.len() == 0 {
        None
    } else if s.last() == '.' {
        Some(s.len() - 1)
    } else {
        last_dot(s.drop_last())
    }
}

/// `Path::extension`: the part of the file name after its last `.`; `None`
/// when there is no file name, no `.` in it, or its only `.` is its first
/// character.
pub open spec fn path_extension(p: Seq<char>) -> Option<Seq<char>> {
    match path_file_name(p) {
        None => None,
        Some(name) => match last_dot(name) {
            None => None,
            Some(j) => if j == 0 {
                None
            } else {
                Some(name.skip(j + 1))
            },
        },
    }
}

/// `Path::extension` of a path given as text, as text, as `path_extension`
/// states it after `Path::extension`'s documentation.
#[verifier::external_body]
fn extension_of(path: &str) -> (r: Option<String>)
    ensures
        match r {
            Some(e) => path_extension(path@) == Some(e@),
            None => path_extension(path@) is None,
        },
{
    std::path::Path::new(path).extension().and_then(|e| e.to_str()).map(|e| e.to_string())
}

/// The MIME type for an image extension (ignoring case).
pub open spec fn mime_spec(ext: Option<Seq<char>>) -> Seq<char> {
    match ext {
        Some(e) => {
            let l = lowercase(e);
            if l == "jpg"@ || l == "jpeg"@ {
                "image/jpeg"@
            } else if l == "png"@ {
                "image/png"@
            } else if l == "gif"@ {
                "image/gif"@
            } else if l == "webp"@ {
                "image/webp"@
            } else {
                "application/octet-stream"@
            }
        },
        None => "application/octet-stream"@,
    }
}

fn is_lit(a: &Vec<char>, s: &str) -> (r: bool)
    ensures
        r == (a@ == s@),
{
    chars_eq(a, &chars_of(s))
}

/// The MIME type for an image extension.
pub fn mime_for_extension(ext: Option<&str>) -> (r: &'static str)
    ensures
        r@ == mime_spec(
            match ext {
                Some(e) => Some(e@),
                None => None,
            },
        ),
{
    match ext {
        Some(e) => {
            let l = chars_of(to_lowercase(e).as_str());
            if is_lit(&l, "jpg") || is_lit(&l, "jpeg") {
                "image/jpeg"
            } else if is_lit(&l, "png") {
                "image/png"
            } else if is_lit(&l, "gif") {
                "image/gif"
            } else if is_lit(&l, "webp") {
                "image/webp"
            } else {
                "application/octet-stream"
            }
        },
        None => "application/octet-stream",
    }
}

/// The MIME type of an image file, by its path's extension.
pub fn mime_for_path(path: &str) -> (r: &'static str)
    ensures
        r@ == mime_spec(path_extension(path@)),
{
    match extension_of(path) {
        Some(e) => mime_for_extension(Some(e.as_str())),
        None => mime_for_extension(None),
    }
}

/// The character for a 6-bit value in the standard base64 alphabet
/// (`A`-`Z`, `a`-`z`, `0`-`9`, `+`, `/`).
pub open spec fn base64_digit(v: nat) -> char {
    if v < 26 {
        (('A' as u32) + v) as char
    } else if v < 52 {
        (('a' as u32) + v - 26) as char
    } else if v < 62 {
        (('0' as u32) + v - 52) as char
    } else if v == 62 {
        '+'
    } else {
        '/'
    }
}

/// The standard base64 encoding (RFC 4648, with `=` padding) of `bytes`:
/// each group of three bytes gives four characters of six bits each; a last
/// group of one or two bytes is filled with zero bits and padded with `=`.
pub open spec fn base64_encoded(bytes: Seq<u8>) -> Seq<char>
    decreases bytes.len(),
{
    if bytes.len() == 0 {
        Seq::empty()
    } else if bytes.len() == 1 {
        let n = bytes[0] as nat;
        seq![base64_digit(n / 4), base64_digit((n % 4) * 16), '=', '=']
    } else if bytes.len() == 2 {
        let n = bytes[0] as nat * 256 + bytes[1] as nat;
        seq![base64_digit(n / 1024), base64_digit((n / 16) % 64), base64_digit((n % 16) * 4), '=']
    } else {
        let n = bytes[0] as nat * 65536 + bytes[1] as nat * 256 + bytes[2] as nat;
        seq![
            base64_digit(n / 262144),
            base64_digit((n / 4096) % 64),
            base64_digit((n / 64) % 64),
            base64_digit(n % 64),
        ] + base64_encoded(bytes.skip(3))
    }
}

/// Whether encoding `n` bytes in base64 keeps the encoded length within
/// `usize` (else `Engine::encode` panics).
pub open spec fn base64_len_fits(n: nat) -> bool {
    n / 3 * 4 + 4 <= usize::MAX
}

/// `base64::engine::general_purpose::STANDARD.encode`: the standard
/// alphabet with padding, as `base64_encoded` states it.
#[verifier::external_body]
fn base64_standard(bytes: &[u8]) -> (r: String)
    requires
        base64_len_fits(bytes@.len()),
    ensures
        r@ == base64_encoded(bytes@),
{
    base64::Engine::encode(&base64::engine::general_purpose::STANDARD, bytes)
}

/// A data URL: `data:<mime>;base64,<encoded>`.
pub open spec fn data_url_spec(mime: Seq<char>, encoded: Seq<char>) -> Seq<char> {
    "data:"@ + mime + ";base64,"@ + encoded
}

/// Builds a data URL from a MIME type and base64 text.
pub fn compose_data_url(mime: &str, encoded: &str) -> (r: String)
    ensures
        r@ == data_url_spec(mime@, encoded@),
{
    let mut out = chars_of("data:");
    push_str_chars(&mut out, mime);
    push_str_chars(&mut out, ";base64,");
    push_str_chars(&mut out, encoded);
    string_from_chars(&out)
}

/// The data URL of the image at `path` whose bytes are `bytes`.
pub fn image_data_url(path: &str, bytes: &[u8]) -> (r: String)
    requires
        base64_len_fits(bytes@.len()),
    ensures
        r@ == data_url_spec(mime_spec(path_extension(path@)), base64_encoded(bytes@)),
{
    let mime = mime_for_path(path);
    let b64 = base64_standard(bytes);
    compose_data_url(mime, b64.as_str())
}

/// `e` refuses the request `id` with `status` and the error text `msg`.
pub open spec fn is_rejection(e: (u16, SendResponse), id: String, status: u16, msg: Seq<char>) -> bool {
    &&& e.0 == status
    &&& !e.1.ok
    &&& e.1.id == id
    &&& e.1.sticker is None
    &&& e.1.error matches Some(m) && m@ == msg
}

/// What reading the image file gave: the file is missing, it could not be
/// read (with the error's text), or its bytes.
pub enum ImageRead {
    Missing,
    Unreadable(String),
    Bytes(Vec<u8>),
}

/// The image step of a send: a missing file is answered 404 with
/// `file not found: <path as Debug>`, an unreadable one 500 with
/// `read image failed: <error>`, and read bytes become the data URL.
pub fn image_step(id: String, path: &str, path_debug: &str, read: ImageRead) -> (r: Result<
    String,
    (u16, SendResponse),
>)
    requires
        read matches ImageRead::Bytes(b) ==> base64_len_fits(b@.len()),
    ensures
        match read {
            ImageRead::Missing => r matches Err(e) && is_rejection(
                e,
                id,
                STATUS_NOT_FOUND,
                "file not found: "@ + path_debug@,
            ),
            ImageRead::Unreadable(why) => r matches Err(e) && is_rejection(
                e,
                id,
                STATUS_INTERNAL_ERROR,
                "read image failed: "@ + why@,
            ),
            ImageRead::Bytes(b) => r matches Ok(u) && u@ == data_url_spec(
                mime_spec(path_extension(path@)),
                base64_encoded(b@),
            ),
        },
{
    match read {
        ImageRead::Missing => {
            let mut m = chars_of("file not found: ");
            push_str_chars(&mut m, path_debug);
            Err(rejection(id, STATUS_NOT_FOUND, string_from_chars(&m)))
        },
        ImageRead::Unreadable(why) => {
            let mut m = chars_of("read image failed: ");
            push_str_chars(&mut m, why.as_str());
            Err(rejection(id, STATUS_INTERNAL_ERROR, string_from_chars(&m)))
        },
        ImageRead::Bytes(b) => Ok(image_data_url(path, b.as_slice())),
    }
}

/// The payload for the overlay: the request's size and position where given,
/// else the configured ones; the sticker's description and AI name, or empty
/// text for an image given by path.
pub fn build_payload(
    id: String,
    image_url: String,
    duration_ms: u32,
    size: Option<u32>,
    default_size: u32,
    position: Option<String>,
    default_position: &str,
    sticker: &Option<StickerMeta>,
) -> (r: StickerPayload)
    ensures
        r.id == id,
        r.image_url == image_url,
        r.duration_ms == duration_ms,
        r.size == match size {
            Some(s) => s,
            None => default_size,
        },
        r.position@ == match position {
            Some(p) => p@,
            None => default_position@,
        },
        r.description@ == match sticker {
            Some(m) => m.description@,
            None => Seq::<char>::empty(),
        },
        r.ai_name@ == match sticker {
            Some(m) => m.ai_name@,
            None => Seq::<char>::empty(),
        },
{
    let size = match size {
        Some(s) => s,
        None => default_size,
    };
    let position = match position {
        Some(p) => p,
        None => string_from_chars(&chars_of(default_position)),
    };
    let (description, ai_name) = match sticker {
        Some(m) => (m.description.clone(), m.ai_name.clone()),
        None => (String::new(), String::new()),
    };
    StickerPayload { id, image_url, duration_ms, size, position, description, ai_name }
}

/// A refusal: the status and an answer carrying the error.
pub fn rejection(id: String, status: u16, error: String) -> (r: (u16, SendResponse))
    ensures
        r.0 == status,
        !r.1.ok,
        r.1.id == id,
        r.1.sticker is None,
        r.1.error == Some(error),
{
    (status, SendResponse { ok: false, id, sticker: None, error: Some(error) })
}

/// The answer when showing failed: status 500, the sticker, and the error.
pub fn show_failed(id: String, sticker: Option<StickerMeta>, error: String) -> (r: (
    u16,
    SendResponse,
))
    ensures
        r.0 == STATUS_INTERNAL_ERROR,
        !r.1.ok,
        r.1.id == id,
        r.1.sticker == sticker,
        r.1.error == Some(error),
{
    (STATUS_INTERNAL_ERROR, SendResponse { ok: false, id, sticker, error: Some(error) })
}

/// The answer when the sticker was shown: status 200, the sticker, no error.
pub fn shown(id: String, sticker: Option<StickerMeta>) -> (r: (u16, SendResponse))
    ensures
        r.0 == STATUS_OK,
        r.1.ok,
        r.1.id == id,
        r.1.sticker == sticker,
        r.1.error is None,
{
    (STATUS_OK, SendResponse { ok: true, id, sticker, error: None })
}

} // verus!
