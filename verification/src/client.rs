//! The upstream client's part that needs no network: where the logger's
//! current readings are fetched from.
//!
//! The readings live under a fixed path of the logger. The address to fetch
//! is the configured base URL with its path replaced by that path; whatever
//! the base URL carries besides its path (scheme, host, port, query) stays.

use vstd::prelude::*;
use vstd::string::StringSliceAdditionalSpecFns;
use vstd::utf8::{encode_utf8, is_ascii_chars, is_ascii_chars_encode_utf8};

verus! {

/// The path of the logger's current readings.
pub const API_PATH: &'static str = "/api/v1/sm/actual";

/// The longest base URL, in bytes, that [`upstream_url`] works on.
pub const MAX_BASE_URL_BYTES: usize = 0x10_0000;

/// What the `url` crate makes of the absolute URL `base` once its path is set
/// to `path`: the serialization of the new URL, or `None` where `base` is no
/// absolute URL.
pub uninterp spec fn url_with_path(base: Seq<char>, path: Seq<char>) -> Option<Seq<char>>;

/// Trusted: calls `Url::parse`, `Url::set_path` and `String::from(Url)` of
/// the `url` crate.
///
/// The contract claims that the outcome depends on the two strings alone and
/// names it [`url_with_path`]: `None` where `Url::parse` refuses `base`, else
/// the serialization of the parsed URL after `set_path(path)`. `set_path`
/// keeps positions in 32 bits and panics where the new URL does not fit; the
/// two bounds keep every input far below that.
#[verifier::external_body]
fn replace_path(base: &str, path: &str) -> (r: Option<String>)
    requires
        base.spec_bytes().len() <= MAX_BASE_URL_BYTES,
        path.spec_bytes().len() <= MAX_BASE_URL_BYTES,
    ensures
        r.deep_view() == url_with_path(base@, path@),
{
    match url::Url::parse(base) {
        Ok(mut parsed) => {
            parsed.set_path(path);
            Some(String::from(parsed))
        },
        Err(_) => None,
    }
}

/// The address of the current readings for a base URL, or `None` where the
/// base URL cannot be used.
pub open spec fn upstream_url_of(base: Seq<char>) -> Option<Seq<char>> {
    if encode_utf8(base).len() <= MAX_BASE_URL_BYTES {
        url_with_path(base, API_PATH@)
    } else {
        None
    }
}

/// The address to fetch the current readings from: `base` with its path
/// replaced by [`API_PATH`]. `None` where `base` is no absolute URL or is
/// longer than [`MAX_BASE_URL_BYTES`].
pub fn upstream_url(base: &str) -> (r: Option<String>)
    ensures
        r.deep_view() == upstream_url_of(base@),
{
    if base.as_bytes().len() > MAX_BASE_URL_BYTES {
        return None;
    }
    proof {
        reveal_strlit("/api/v1/sm/actual");
        assert(is_ascii_chars(API_PATH@));
        is_ascii_chars_encode_utf8(API_PATH@);
    }
    replace_path(base, API_PATH)
}

} // verus!
