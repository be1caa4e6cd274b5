//! Request paths and outcome rules of the UDS administration API.

use vstd::prelude::*;

use crate::text::{trim_end_char, trim_end_matching};

verus! {

/// The text of a local path as it is shown to the operator.
///
/// Trusted: `std::path::Path::display` of the path written as `path`, written
/// out with `to_string`. Its documented lossy conversion concerns data that
/// is not valid Unicode; a path written as a `str` is valid Unicode, so it is
/// shown as written.
#[verifier::external_body]
pub fn display_path(path: &str) -> (r: String)
    ensures
        r@ == path@,
{
    std::path::Path::new(path).display().to_string()
}

/// `/admin/v1/channels/<channel>`
pub open spec fn channel_path(channel: Seq<char>) -> Seq<char> {
    "/admin/v1/channels/"@ + channel
}

/// The server base URL of a client profile without trailing slashes.
pub fn normalize_base_url(base_url: &str) -> (r: String)
    ensures
        r@ == trim_end_matching(base_url@, '/'),
{
    trim_end_char(base_url, '/')
}

/// The absolute URL of an API path: the base URL followed by the path.
pub fn endpoint_url(base_url: &str, path: &str) -> (r: String)
    ensures
        r@ == base_url@ + path@,
{
    let mut r = String::from_str(base_url);
    r.append(path);
    r
}

/// The releases of a channel: `/admin/v1/channels/<channel>/releases`.
pub fn releases_path(channel: &str) -> (r: String)
    ensures
        r@ == channel_path(channel@) + "/releases"@,
{
    let mut r = String::from_str("/admin/v1/channels/");
    r.append(channel);
    r.append("/releases");
    r
}

/// One release of a channel: `/admin/v1/channels/<channel>/releases/<version>`.
pub fn release_path(channel: &str, version: &str) -> (r: String)
    ensures
        r@ == channel_path(channel@) + "/releases/"@ + version@,
{
    let mut r = String::from_str("/admin/v1/channels/");
    r.append(channel);
    r.append("/releases/");
    r.append(version);
    r
}

/// The changelog of one release:
/// `/admin/v1/channels/<channel>/releases/<version>/changelog`.
pub fn changelog_path(channel: &str, version: &str) -> (r: String)
    ensures
        r@ == channel_path(channel@) + "/releases/"@ + version@ + "/changelog"@,
{
    let mut r = release_path(channel, version);
    r.append("/changelog");
    r
}

/// Copying a release into a channel: `/admin/v1/channels/<target>/copy`.
pub fn copy_path(target_channel: &str) -> (r: String)
    ensures
        r@ == channel_path(target_channel@) + "/copy"@,
{
    let mut r = String::from_str("/admin/v1/channels/");
    r.append(target_channel);
    r.append("/copy");
    r
}

/// The statistics of a channel: `/admin/v1/channels/<channel>/stats`.
pub fn stats_path(channel: &str) -> (r: String)
    ensures
        r@ == channel_path(channel@) + "/stats"@,
{
    let mut r = String::from_str("/admin/v1/channels/");
    r.append(channel);
    r.append("/stats");
    r
}

/// Whether a response status is a success (`200..=299`); any other status
/// makes the client report the response body as an error.
pub fn is_success_status(status: u16) -> (r: bool)
    ensures
        r == (200 <= status <= 299),
{
    200 <= status && status <= 299
}

} // verus!
