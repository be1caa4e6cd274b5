//! Preparing a Tauri updater release (`latest.json` plus artifacts) for upload.
//!
//! Fetching and reading files happens in the caller; this module resolves
//! artifact URLs and names, digests artifact bytes and assembles the upload.

use std::collections::BTreeMap;

use vstd::prelude::*;

use crate::client::api::display_path;
use crate::errors::UdsError;
use crate::models::{ReleaseUploadMetadata, UploadPlatformMetadata};
use crate::text::{decimal, ends_with, has_prefix, has_suffix, push_decimal, same_text, chars_of, string_of};

verus! {

#[verifier::external_type_specification]
#[verifier::external_body]
pub struct ExUrl(url::Url);

#[verifier::external_type_specification]
#[verifier::external_body]
pub struct ExUrlParseError(url::ParseError);

// ---------------------------------------------------------------------------
// URLs
// ---------------------------------------------------------------------------

/// The serialization of the URL that `url::Url::parse` makes of `input`, or
/// `None` where it reports an error.
pub uninterp spec fn spec_url_parse(input: Seq<char>) -> Option<Seq<char>>;

/// The serialization of the URL that `url::Url::join` makes of `input`
/// against the base URL serialized as `base`, or `None` on an error.
pub uninterp spec fn spec_url_join(base: Seq<char>, input: Seq<char>) -> Option<Seq<char>>;

/// The path of the URL serialized as `url` (`url::Url::path`).
pub uninterp spec fn spec_url_path(url: Seq<char>) -> Seq<char>;

/// The domain of the URL serialized as `url` (`url::Url::domain`).
pub uninterp spec fn spec_url_domain(url: Seq<char>) -> Option<Seq<char>>;

/// A parsed URL. Values come only from `parse_url` and `WebUrl::join`, so
/// the text always is the serialization of the parsed URL held beside it.
pub struct WebUrl {
    parsed: url::Url,
    text: String,
}

impl View for WebUrl {
    type V = Seq<char>;

    closed spec fn view(&self) -> Seq<char> {
        self.text@
    }
}

/// Parses an absolute URL.
///
/// Trusted: `url::Url::parse`, named by `spec_url_parse`; the view is the
/// serialization (`Url::as_str`).
#[verifier::external_body]
pub fn parse_url(input: &str) -> (r: Result<WebUrl, url::ParseError>)
    ensures
        match r {
            Ok(u) => spec_url_parse(input@) == Some(u@),
            Err(_) => spec_url_parse(input@) is None,
        },
{
    match url::Url::parse(input) {
        Ok(parsed) => Ok(WebUrl { text: parsed.as_str().to_string(), parsed }),
        Err(error) => Err(error),
    }
}

/// The message of a URL parse error.
///
/// Trusted: `url::ParseError`'s `Display`; the text is not stated.
#[verifier::external_body]
fn url_error_text(error: &url::ParseError) -> String {
    error.to_string()
}

impl WebUrl {
    /// The serialization of the URL.
    pub fn as_str(&self) -> (r: &str)
        ensures
            r@ == self@,
    {
        self.text.as_str()
    }

    /// Resolves `input` against this URL.
    ///
    /// Trusted: `url::Url::join`, named by `spec_url_join`.
    #[verifier::external_body]
    pub fn join(&self, input: &str) -> (r: Result<WebUrl, url::ParseError>)
        ensures
            match r {
                Ok(u) => spec_url_join(self@, input@) == Some(u@),
                Err(_) => spec_url_join(self@, input@) is None,
            },
    {
        match self.parsed.join(input) {
            Ok(parsed) => Ok(WebUrl { text: parsed.as_str().to_string(), parsed }),
            Err(error) => Err(error),
        }
    }

    /// The path of the URL.
    ///
    /// Trusted: `url::Url::path`, named by `spec_url_path`.
    #[verifier::external_body]
    pub fn path(&self) -> (r: &str)
        ensures
            r@ == spec_url_path(self@),
    {
        self.parsed.path()
    }

    /// The domain of the URL, if its host is a domain.
    ///
    /// Trusted: `url::Url::domain`, named by `spec_url_domain`.
    #[verifier::external_body]
    pub fn domain(&self) -> (r: Option<&str>)
        ensures
            match r {
                Some(d) => spec_url_domain(self@) == Some(d@),
                None => spec_url_domain(self@) is None,
            },
    {
        self.parsed.domain()
    }

    /// The `/`-separated segments of the path, if it starts with `/`
    /// (`url::Url::path_segments`).
    pub fn path_segments(&self) -> (r: Option<Vec<String>>)
        ensures
            match r {
                Some(v) => spec_path_segments(spec_url_path(self@)) == Some(
                    v@.map_values(|s: String| s@),
                ),
                None => spec_path_segments(spec_url_path(self@)) is None,
            },
    {
        let path = self.path();
        let v = chars_of(path);
        if v.len() > 0 && v[0] == '/' {
            let parts = split_at_slashes(&v, 1);
            assert(v@.subrange(1, v.len() as int) =~= v@.drop_first());
            Some(parts)
        } else {
            None
        }
    }
}

/// The pieces of `s[start..]` between `/` characters, scanning from `i`.
pub open spec fn split_from(s: Seq<char>, start: int, i: int) -> Seq<Seq<char>>
    decreases s.len() - i,
{
    if i >= s.len() {
        seq![s.subrange(start, s.len() as int)]
    } else if s[i] == '/' {
        seq![s.subrange(start, i)] + split_from(s, i + 1, i + 1)
    } else {
        split_from(s, start, i + 1)
    }
}

/// The pieces of `s` between `/` characters (`str::split('/')`).
pub open spec fn split_slashes(s: Seq<char>) -> Seq<Seq<char>> {
    split_from(s, 0, 0)
}

/// The path segments: the pieces after the leading `/`, if there is one.
pub open spec fn spec_path_segments(path: Seq<char>) -> Option<Seq<Seq<char>>> {
    if path.len() > 0 && path[0] == '/' {
        Some(split_slashes(path.drop_first()))
    } else {
        None
    }
}

/// The pieces of `v[lo..]` between `/` characters.
fn split_at_slashes(v: &Vec<char>, lo: usize) -> (parts: Vec<String>)
    requires
        lo <= v.len(),
    ensures
        parts@.map_values(|s: String| s@) == split_slashes(v@.subrange(lo as int, v.len() as int)),
{
    let ghost s = v@.subrange(lo as int, v.len() as int);
    let n = v.len();
    let mut parts: Vec<String> = Vec::new();
    let mut start = lo;
    let mut i = lo;
    while i < n
        invariant
            n == v.len(),
            lo <= start <= i <= n,
            s == v@.subrange(lo as int, n as int),
            split_slashes(s) == parts@.map_values(|x: String| x@) + split_from(
                s,
                start - lo,
                i - lo,
            ),
        decreases n - i,
    {
        if v[i] == '/' {
            let piece = string_of(v, start, i);
            let ghost old_parts = parts@.map_values(|x: String| x@);
            assert(s.subrange(start - lo, i - lo) =~= piece@);
            assert(split_from(s, start - lo, i - lo) == seq![piece@] + split_from(
                s,
                i - lo + 1,
                i - lo + 1,
            ));
            parts.push(piece);
            assert(parts@.map_values(|x: String| x@) =~= old_parts.push(piece@));
            assert(old_parts + (seq![piece@] + split_from(s, i - lo + 1, i - lo + 1))
                =~= old_parts.push(piece@) + split_from(s, i - lo + 1, i - lo + 1));
            start = i + 1;
        } else {
            assert(split_from(s, start - lo, i - lo) == split_from(s, start - lo, i - lo + 1));
        }
        i = i + 1;
    }
    let piece = string_of(v, start, n);
    let ghost old_parts = parts@.map_values(|x: String| x@);
    assert(s.subrange(start - lo, n - lo) =~= piece@);
    assert(split_from(s, start - lo, n - lo) == seq![piece@]);
    parts.push(piece);
    assert(parts@.map_values(|x: String| x@) =~= old_parts.push(piece@));
    assert(old_parts + seq![piece@] =~= old_parts.push(piece@));
    parts
}

// ---------------------------------------------------------------------------
// GitHub release URLs
// ---------------------------------------------------------------------------

/// Where a GitHub release page's `latest.json` is, given the URL's path
/// segments `owner/repo/releases/...`: a tag page `releases/tag/<tag>` points
/// to that tag's `latest.json`; a download URL `releases/download/<tag>/<file>`
/// is kept as it is (`None`); any other release page points to the latest
/// release. `None` for a URL that is no release page.
pub open spec fn github_release_target(segs: Seq<Seq<char>>) -> Option<Seq<char>> {
    if segs.len() >= 4 && segs[2] == "releases"@ {
        if segs[3] == "download"@ && segs.len() >= 6 {
            None
        } else if segs[3] == "tag"@ && segs.len() >= 5 {
            Some(
                "https://github.com/"@ + segs[0] + "/"@ + segs[1] + "/releases/download/"@ + segs[4]
                    + "/latest.json"@,
            )
        } else {
            Some(
                "https://github.com/"@ + segs[0] + "/"@ + segs[1]
                    + "/releases/latest/download/latest.json"@,
            )
        }
    } else {
        None
    }
}

/// What `normalize_github_release_url` gives: the serialization of the URL
/// of the `latest.json` to fetch, or `None` where it fails.
pub open spec fn spec_normalize_release_url(input: Seq<char>) -> Option<Seq<char>> {
    match spec_url_parse(input) {
        None => None,
        Some(u) => if has_suffix(spec_url_path(u), "/latest.json"@) {
            Some(u)
        } else if spec_url_domain(u) == Some("github.com"@) {
            let segs = match spec_path_segments(spec_url_path(u)) {
                Some(s) => s,
                None => seq![],
            };
            match github_release_target(segs) {
                None => Some(u),
                Some(t) => spec_url_parse(t),
            }
        } else {
            Some(u)
        }
    }
}

/// `prefix` followed by the message of `error`.
fn message_with(prefix: &str, error: &url::ParseError) -> (r: String)
    ensures
        has_prefix(r@, prefix@),
{
    let mut m = String::from_str(prefix);
    let detail = url_error_text(error);
    m.append(detail.as_str());
    assert(m@.subrange(0, prefix@.len() as int) =~= prefix@);
    m
}

/// The URL of the `latest.json` for a user-supplied release URL: a URL whose
/// path ends in `/latest.json` is used as it is; a GitHub release page is
/// pointed to the `latest.json` of that release (or the latest release);
/// any other URL is used as it is. A text that is no URL is a bad request.
pub fn normalize_github_release_url(input: &str) -> (r: Result<WebUrl, UdsError>)
    ensures
        match r {
            Ok(u) => spec_normalize_release_url(input@) == Some(u@),
            Err(e) => {
                &&& spec_normalize_release_url(input@) is None
                &&& e matches UdsError::BadRequest(m)
                &&& spec_url_parse(input@) is None ==> has_prefix(m@, "invalid URL: "@)
                &&& spec_url_parse(input@) is Some ==> has_prefix(
                    m@,
                    "invalid normalized GitHub URL: "@,
                )
            },
        },
{
    let url = match parse_url(input) {
        Ok(u) => u,
        Err(error) => {
            return Err(UdsError::BadRequest(message_with("invalid URL: ", &error)));
        },
    };
    proof {
        reveal_strlit("/latest.json");
        reveal_strlit("github.com");
        reveal_strlit("releases");
        reveal_strlit("download");
        reveal_strlit("tag");
    }
    if ends_with(url.path(), "/latest.json") {
        return Ok(url);
    }
    let is_github = match url.domain() {
        Some(d) => same_text(d, "github.com"),
        None => false,
    };
    if !is_github {
        return Ok(url);
    }
    let segments: Vec<String> = match url.path_segments() {
        Some(s) => s,
        None => Vec::new(),
    };
    let ghost segs = segments@.map_values(|s: String| s@);
    assert(segments@.map_values(|s: String| s@) == segs);
    if segments.len() >= 4 && same_text(segments[2].as_str(), "releases") {
        assert(segments[2]@ == segs[2]);
        assert(segments[3]@ == segs[3]);
        assert(segments[0]@ == segs[0]);
        assert(segments[1]@ == segs[1]);
        let is_download = same_text(segments[3].as_str(), "download");
        if is_download && segments.len() >= 6 {
            return Ok(url);
        }
        let mut normalized = String::from_str("https://github.com/");
        normalized.append(segments[0].as_str());
        normalized.append("/");
        normalized.append(segments[1].as_str());
        if same_text(segments[3].as_str(), "tag") && segments.len() >= 5 {
            assert(segments[4]@ == segs[4]);
            normalized.append("/releases/download/");
            normalized.append(segments[4].as_str());
            normalized.append("/latest.json");
        } else {
            normalized.append("/releases/latest/download/latest.json");
        }
        match parse_url(normalized.as_str()) {
            Ok(u) => Ok(u),
            Err(error) => Err(
                UdsError::BadRequest(message_with("invalid normalized GitHub URL: ", &error)),
            ),
        }
    } else {
        Ok(url)
    }
}

} // verus!

verus! {

// ---------------------------------------------------------------------------
// Artifacts
// ---------------------------------------------------------------------------

/// The SHA-256 digest of `data`.
pub uninterp spec fn spec_sha256(data: Seq<u8>) -> Seq<u8>;

/// Trusted: `sha2::Sha256::digest`, named by `spec_sha256`; a digest has 32 bytes.
#[verifier::external_body]
fn sha256_digest(data: &[u8]) -> (r: Vec<u8>)
    ensures
        r@ == spec_sha256(data@),
        r@.len() == 32,
{
    <sha2::Sha256 as sha2::Digest>::digest(data).to_vec()
}

/// The lower-case hexadecimal digit of `d` (below 16).
pub open spec fn hex_digit(d: nat) -> char {
    if d < 10 {
        ((48 + d) as u32) as char
    } else {
        ((87 + d) as u32) as char
    }
}

/// Two lower-case hexadecimal digits per byte, high nibble first.
pub open spec fn lower_hex(data: Seq<u8>) -> Seq<char>
    decreases data.len(),
{
    if data.len() == 0 {
        seq![]
    } else {
        lower_hex(data.drop_last()) + seq![
            hex_digit((data.last() / 16) as nat),
            hex_digit((data.last() % 16) as nat),
        ]
    }
}

/// Trusted: `hex::encode` writes each byte as two lower-case hexadecimal
/// digits from the table `0123456789abcdef`, high nibble first.
#[verifier::external_body]
fn hex_encode(data: &[u8]) -> (r: String)
    ensures
        r@ == lower_hex(data@),
{
    hex::encode(data)
}

/// The SHA-256 digest of `data` in lower-case hexadecimal, as UDS records it.
pub fn sha256_hex(data: &[u8]) -> (r: String)
    ensures
        r@ == lower_hex(spec_sha256(data@)),
        r@.len() == 64,
{
    let digest = sha256_digest(data);
    proof {
        lemma_lower_hex_len(digest@);
    }
    hex_encode(digest.as_slice())
}

proof fn lemma_lower_hex_len(data: Seq<u8>)
    ensures
        lower_hex(data).len() == 2 * data.len(),
    decreases data.len(),
{
    if data.len() > 0 {
        lemma_lower_hex_len(data.drop_last());
    }
}

/// A platform entry of a Tauri updater `latest.json`.
pub struct TauriStaticPlatform {
    pub url: String,
    pub signature: String,
}

/// A Tauri updater `latest.json`.
pub struct TauriStaticRelease {
    pub version: String,
    pub notes: String,
    pub pub_date: Option<String>,
    pub platforms: BTreeMap<String, TauriStaticPlatform>,
}

/// An artifact ready to be uploaded.
pub struct PreparedArtifact {
    pub field_name: String,
    pub platform: String,
    pub file_name: String,
    pub source_url: String,
    /// Where the artifact bytes are on disk, as text.
    pub path: String,
    pub size: u64,
    pub sha256: String,
}

/// A release ready to be uploaded: its metadata and its artifacts.
pub struct PreparedUpload {
    pub metadata: ReleaseUploadMetadata,
    pub artifacts: Vec<PreparedArtifact>,
}

/// The multipart field and file name chosen for one platform's artifact.
pub struct ArtifactPlan {
    pub field_name: String,
    pub file_name: String,
}

/// The multipart field of the artifact at `index`: `artifact_<index>`.
pub fn artifact_field_name(index: usize) -> (r: String)
    ensures
        r@ == "artifact_"@ + decimal(index as nat),
{
    let mut r = String::from_str("artifact_");
    push_decimal(&mut r, index as u64);
    r
}

/// The file name a URL names: its last path segment, when there is one and
/// it is not empty.
pub open spec fn spec_url_file_name(url: Seq<char>) -> Option<Seq<char>> {
    match spec_path_segments(spec_url_path(url)) {
        Some(segs) => if segs.len() > 0 && segs.last().len() > 0 {
            Some(segs.last())
        } else {
            None
        },
        None => None,
    }
}

/// The file name of an artifact URL; a bad request where the URL names none.
pub fn artifact_file_name(url: &WebUrl) -> (r: Result<String, UdsError>)
    ensures
        match r {
            Ok(name) => spec_url_file_name(url@) == Some(name@),
            Err(e) => spec_url_file_name(url@) is None && (e matches UdsError::BadRequest(m) && m@
                == "could not determine artifact file name from "@ + url@),
        },
{
    match url.path_segments() {
        Some(mut segments) => {
            let ghost segs = segments@.map_values(|s: String| s@);
            if segments.len() > 0 {
                let last = segments.pop().unwrap();
                assert(last@ == segs.last());
                if !last.as_str().is_empty() {
                    return Ok(last);
                }
            }
        },
        None => {},
    }
    let mut message = String::from_str("could not determine artifact file name from ");
    message.append(url.as_str());
    Err(UdsError::BadRequest(message))
}

/// The URL of a platform artifact: absolute, or relative to the `latest.json` URL.
pub open spec fn spec_artifact_url(raw: Seq<char>, base: Seq<char>) -> Option<Seq<char>> {
    match spec_url_parse(raw) {
        Some(u) => Some(u),
        None => spec_url_join(base, raw),
    }
}

/// Resolves one platform artifact of a remote `latest.json` at `latest_json_url`:
/// its URL, multipart field and file name.
pub fn plan_remote_artifact(
    index: usize,
    platform: &str,
    platform_release: &TauriStaticPlatform,
    latest_json_url: &WebUrl,
) -> (r: Result<(ArtifactPlan, WebUrl), UdsError>)
    ensures
        match r {
            Ok((plan, url)) => {
                &&& spec_artifact_url(platform_release.url@, latest_json_url@) == Some(url@)
                &&& spec_url_file_name(url@) == Some(plan.file_name@)
                &&& plan.field_name@ == "artifact_"@ + decimal(index as nat)
            },
            Err(e) => match spec_artifact_url(platform_release.url@, latest_json_url@) {
                None => e matches UdsError::BadRequest(m) && has_prefix(
                    m@,
                    "invalid artifact URL for "@ + platform@ + ": "@,
                ),
                Some(u) => spec_url_file_name(u) is None && (e matches UdsError::BadRequest(m)
                    && m@ == "could not determine artifact file name from "@ + u),
            },
        },
{
    let url = match parse_url(platform_release.url.as_str()) {
        Ok(u) => u,
        Err(_) => match latest_json_url.join(platform_release.url.as_str()) {
            Ok(u) => u,
            Err(error) => {
                let mut prefix = String::from_str("invalid artifact URL for ");
                prefix.append(platform);
                prefix.append(": ");
                return Err(UdsError::BadRequest(message_with(prefix.as_str(), &error)));
            },
        },
    };
    let file_name = match artifact_file_name(&url) {
        Ok(name) => name,
        Err(e) => {
            return Err(e);
        },
    };
    let field_name = artifact_field_name(index);
    Ok((ArtifactPlan { field_name, file_name }, url))
}

/// The file name of the last component of a local path, lossily decoded.
pub uninterp spec fn spec_path_file_name(path: Seq<char>) -> Option<Seq<char>>;

/// Trusted: `std::path::Path::file_name`, named by `spec_path_file_name`.
#[verifier::external_body]
fn path_file_name(path: &str) -> (r: Option<String>)
    ensures
        match r {
            Some(name) => spec_path_file_name(path@) == Some(name@),
            None => spec_path_file_name(path@) is None,
        },
{
    match std::path::Path::new(path).file_name() {
        Some(name) => Some(name.to_string_lossy().to_string()),
        None => None,
    }
}

/// The file name of a local artifact: from its URL, else from its text as a path.
pub open spec fn spec_local_file_name(raw: Seq<char>) -> Option<Seq<char>> {
    match spec_url_parse(raw) {
        Some(u) => match spec_url_file_name(u) {
            Some(n) => Some(n),
            None => spec_path_file_name(raw),
        },
        None => spec_path_file_name(raw),
    }
}

/// Resolves one platform artifact of a local `latest.json`: its multipart
/// field and the file name to read from the artifact directory.
pub fn plan_local_artifact(index: usize, platform: &str, platform_release: &TauriStaticPlatform) -> (r:
    Result<ArtifactPlan, UdsError>)
    ensures
        match r {
            Ok(plan) => spec_local_file_name(platform_release.url@) == Some(plan.file_name@)
                && plan.field_name@ == "artifact_"@ + decimal(index as nat),
            Err(e) => spec_local_file_name(platform_release.url@) is None && (e matches UdsError::BadRequest(m)
                && m@ == "could not determine artifact file name for "@ + platform@),
        },
{
    let from_url = match parse_url(platform_release.url.as_str()) {
        Ok(u) => match artifact_file_name(&u) {
            Ok(name) => Some(name),
            Err(_) => None,
        },
        Err(_) => None,
    };
    let file_name = match from_url {
        Some(name) => name,
        None => match path_file_name(platform_release.url.as_str()) {
            Some(name) => name,
            None => {
                let mut message = String::from_str("could not determine artifact file name for ");
                message.append(platform);
                return Err(UdsError::BadRequest(message));
            },
        },
    };
    let field_name = artifact_field_name(index);
    Ok(ArtifactPlan { field_name, file_name })
}

/// Adds or replaces one platform of the upload metadata.
///
/// Trusted: `BTreeMap::insert` maps `key` to `value` and keeps every other
/// entry; `String` keys are ordered by their content.
#[verifier::external_body]
fn insert_platform(
    platforms: &mut BTreeMap<String, UploadPlatformMetadata>,
    key: String,
    value: UploadPlatformMetadata,
)
    ensures
        final(platforms)@ == old(platforms)@.insert(key, value),
{
    platforms.insert(key, value);
}

/// The plain content of a `PreparedArtifact`.
pub struct ArtifactView {
    pub field_name: Seq<char>,
    pub platform: Seq<char>,
    pub file_name: Seq<char>,
    pub source_url: Seq<char>,
    pub path: Seq<char>,
    pub size: u64,
    pub sha256: Seq<char>,
}

impl View for PreparedArtifact {
    type V = ArtifactView;

    open spec fn view(&self) -> ArtifactView {
        ArtifactView {
            field_name: self.field_name@,
            platform: self.platform@,
            file_name: self.file_name@,
            source_url: self.source_url@,
            path: self.path@,
            size: self.size,
            sha256: self.sha256@,
        }
    }
}

impl PreparedUpload {
    /// An upload of a release with no artifacts yet.
    pub fn new(version: String, pub_date: Option<String>, notes: String) -> (r: PreparedUpload)
        ensures
            r.metadata.version == version,
            r.metadata.pub_date == pub_date,
            r.metadata.notes == notes,
            r.metadata.platforms@ == Map::<String, UploadPlatformMetadata>::empty(),
            r.artifacts@.len() == 0,
    {
        PreparedUpload {
            metadata: ReleaseUploadMetadata { version, pub_date, notes, platforms: BTreeMap::new() },
            artifacts: Vec::new(),
        }
    }

    /// Records one artifact whose bytes were fetched to `path`: its metadata
    /// entry (field, file name, signature) under the platform name, and the
    /// artifact with its size and SHA-256 digest.
    pub fn add_artifact(
        &mut self,
        platform: String,
        platform_release: &TauriStaticPlatform,
        plan: ArtifactPlan,
        source_url: String,
        path: String,
        bytes: &[u8],
    )
        requires
            old(self).artifacts@.len() < usize::MAX,
        ensures
            artifact_added(
                *old(self),
                *final(self),
                platform,
                platform_release.signature@,
                plan,
                source_url@,
                path@,
                bytes@,
            ),
    {
        let sha256 = sha256_hex(bytes);
        let entry = UploadPlatformMetadata {
            file_field: plan.field_name.clone(),
            file_name: plan.file_name.clone(),
            signature: platform_release.signature.clone(),
        };
        insert_platform(&mut self.metadata.platforms, platform.clone(), entry);
        self.artifacts.push(
            PreparedArtifact {
                field_name: plan.field_name,
                platform,
                file_name: plan.file_name,
                source_url,
                path,
                size: bytes.len() as u64,
                sha256,
            },
        );
    }

    /// Records one artifact of a remote release, downloaded into `temp_dir`:
    /// it is kept at `temp_dir` joined with its file name, and its source is
    /// the artifact URL.
    pub fn add_remote_artifact(
        &mut self,
        platform: String,
        platform_release: &TauriStaticPlatform,
        plan: ArtifactPlan,
        artifact_url: &WebUrl,
        temp_dir: &str,
        bytes: &[u8],
    )
        requires
            old(self).artifacts@.len() < usize::MAX,
        ensures
            artifact_added(
                *old(self),
                *final(self),
                platform,
                platform_release.signature@,
                plan,
                artifact_url@,
                spec_path_join(temp_dir@, plan.file_name@),
                bytes@,
            ),
    {
        let path = artifact_path(temp_dir, &plan);
        let source_url = String::from_str(artifact_url.as_str());
        self.add_artifact(platform, platform_release, plan, source_url, path, bytes);
    }

    /// Records one artifact of a local release, read from `artifact_dir`:
    /// it is at `artifact_dir` joined with its file name, and its source is
    /// that path as it is displayed, which is its text.
    pub fn add_local_artifact(
        &mut self,
        platform: String,
        platform_release: &TauriStaticPlatform,
        plan: ArtifactPlan,
        artifact_dir: &str,
        bytes: &[u8],
    )
        requires
            old(self).artifacts@.len() < usize::MAX,
        ensures
            artifact_added(
                *old(self),
                *final(self),
                platform,
                platform_release.signature@,
                plan,
                spec_path_join(artifact_dir@, plan.file_name@),
                spec_path_join(artifact_dir@, plan.file_name@),
                bytes@,
            ),
    {
        let path = artifact_path(artifact_dir, &plan);
        let source_url = display_path(path.as_str());
        self.add_artifact(platform, platform_release, plan, source_url, path, bytes);
    }
}

/// What recording one artifact does to an upload: the platform's metadata
/// entry names the artifact's field, file name and signature, other
/// platforms keep theirs, and the artifact is appended with the given
/// source, path, size and SHA-256 digest (lower-case hexadecimal).
pub open spec fn artifact_added(
    before: PreparedUpload,
    after: PreparedUpload,
    platform: String,
    signature: Seq<char>,
    plan: ArtifactPlan,
    source_url: Seq<char>,
    path: Seq<char>,
    bytes: Seq<u8>,
) -> bool {
    &&& after.metadata.version == before.metadata.version
    &&& after.metadata.pub_date == before.metadata.pub_date
    &&& after.metadata.notes == before.metadata.notes
    &&& after.metadata.platforms@.dom() == before.metadata.platforms@.dom().insert(platform)
    &&& after.metadata.platforms@[platform].file_field@ == plan.field_name@
    &&& after.metadata.platforms@[platform].file_name@ == plan.file_name@
    &&& after.metadata.platforms@[platform].signature@ == signature
    &&& forall|k: String|
        k != platform && #[trigger] before.metadata.platforms@.contains_key(k)
            ==> after.metadata.platforms@[k] == before.metadata.platforms@[k]
    &&& after.artifacts@.len() == before.artifacts@.len() + 1
    &&& forall|i: int|
        0 <= i < before.artifacts@.len() ==> #[trigger] after.artifacts@[i] == before.artifacts@[i]
    &&& after.artifacts@.last()@ == (ArtifactView {
        field_name: plan.field_name@,
        platform: platform@,
        file_name: plan.file_name@,
        source_url,
        path,
        size: bytes.len() as u64,
        sha256: lower_hex(spec_sha256(bytes)),
    })
}

/// The path written as `dir` joined with `name` (`Path::join`), as text, on
/// the platform the library is built for.
pub uninterp spec fn spec_path_join(dir: Seq<char>, name: Seq<char>) -> Seq<char>;

/// Trusted: `std::path::Path::join` of the paths written as `dir` and `name`,
/// read back as text; named by `spec_path_join`.
#[verifier::external_body]
fn join_path(dir: &str, name: &str) -> (r: String)
    ensures
        r@ == spec_path_join(dir@, name@),
{
    std::path::Path::new(dir).join(name).to_string_lossy().into_owned()
}

/// Where an artifact is kept in directory `dir`: the directory joined with
/// the artifact's file name.
pub fn artifact_path(dir: &str, plan: &ArtifactPlan) -> (r: String)
    ensures
        r@ == spec_path_join(dir@, plan.file_name@),
{
    join_path(dir, plan.file_name.as_str())
}

// ---------------------------------------------------------------------------
// A whole upload
// ---------------------------------------------------------------------------

/// An upload built from a `latest.json` whose platforms are `platforms`,
/// visiting them as `keys` lists them: `steps[0]` is the fresh upload,
/// and step `i` records platform `keys[i]` under the plan made for index
/// `i` (field `artifact_<i>`), with the given source, path and bytes.
pub open spec fn upload_built(
    platforms: Map<String, TauriStaticPlatform>,
    keys: Seq<String>,
    plans: Seq<ArtifactPlan>,
    sources: Seq<Seq<char>>,
    paths: Seq<Seq<char>>,
    contents: Seq<Seq<u8>>,
    steps: Seq<PreparedUpload>,
) -> bool {
    &&& steps.len() == keys.len() + 1
    &&& plans.len() == keys.len()
    &&& sources.len() == keys.len()
    &&& paths.len() == keys.len()
    &&& contents.len() == keys.len()
    &&& steps[0].metadata.platforms@ == Map::<String, UploadPlatformMetadata>::empty()
    &&& steps[0].artifacts@.len() == 0
    &&& forall|i: int|
        0 <= i < keys.len() ==> #[trigger] plans[i].field_name@ == "artifact_"@ + decimal(
            i as nat,
        )
    &&& forall|i: int|
        0 <= i < keys.len() ==> artifact_added(
            #[trigger] steps[i],
            steps[i + 1],
            keys[i],
            platforms[keys[i]].signature@,
            plans[i],
            sources[i],
            paths[i],
            contents[i],
        )
}

/// What the first `m` steps of an upload have recorded.
pub open spec fn upload_prefix_recorded(
    platforms: Map<String, TauriStaticPlatform>,
    keys: Seq<String>,
    plans: Seq<ArtifactPlan>,
    sources: Seq<Seq<char>>,
    paths: Seq<Seq<char>>,
    contents: Seq<Seq<u8>>,
    first: PreparedUpload,
    u: PreparedUpload,
    m: int,
) -> bool {
    &&& u.metadata.version == first.metadata.version
    &&& u.metadata.pub_date == first.metadata.pub_date
    &&& u.metadata.notes == first.metadata.notes
    &&& u.artifacts@.len() == m
    &&& forall|k: String| #[trigger]
        u.metadata.platforms@.contains_key(k) <==> keys.take(m).contains(k)
    &&& forall|i: int|
        0 <= i < m ==> (#[trigger] u.artifacts@[i])@ == (ArtifactView {
            field_name: plans[i].field_name@,
            platform: keys[i]@,
            file_name: plans[i].file_name@,
            source_url: sources[i],
            path: paths[i],
            size: contents[i].len() as u64,
            sha256: lower_hex(spec_sha256(contents[i])),
        })
    &&& forall|i: int|
        #![trigger keys[i]]
        0 <= i < m ==> {
            &&& u.metadata.platforms@[keys[i]].file_field@ == plans[i].field_name@
            &&& u.metadata.platforms@[keys[i]].file_name@ == plans[i].file_name@
            &&& u.metadata.platforms@[keys[i]].signature@ == platforms[keys[i]].signature@
        }
}

proof fn lemma_upload_prefix(
    platforms: Map<String, TauriStaticPlatform>,
    keys: Seq<String>,
    plans: Seq<ArtifactPlan>,
    sources: Seq<Seq<char>>,
    paths: Seq<Seq<char>>,
    contents: Seq<Seq<u8>>,
    steps: Seq<PreparedUpload>,
    m: int,
)
    requires
        upload_built(platforms, keys, plans, sources, paths, contents, steps),
        keys.no_duplicates(),
        0 <= m <= keys.len(),
    ensures
        upload_prefix_recorded(platforms, keys, plans, sources, paths, contents, steps[0], steps[m], m),
    decreases m,
{
    if m == 0 {
        assert forall|k: String| #[trigger]
            steps[0].metadata.platforms@.contains_key(k) <==> keys.take(0).contains(k) by {
            assert(keys.take(0).len() == 0);
        }
    } else {
        lemma_upload_prefix(platforms, keys, plans, sources, paths, contents, steps, m - 1);
        assert(artifact_added(
            steps[m - 1],
            steps[m],
            keys[m - 1],
            platforms[keys[m - 1]].signature@,
            plans[m - 1],
            sources[m - 1],
            paths[m - 1],
            contents[m - 1],
        ));
        lemma_upload_step(
            platforms,
            keys,
            plans,
            sources,
            paths,
            contents,
            steps[0],
            steps[m - 1],
            steps[m],
            m,
        );
    }
}

/// One more recorded platform extends what the upload has recorded.
#[verifier::rlimit(30)]
proof fn lemma_upload_step(
    platforms: Map<String, TauriStaticPlatform>,
    keys: Seq<String>,
    plans: Seq<ArtifactPlan>,
    sources: Seq<Seq<char>>,
    paths: Seq<Seq<char>>,
    contents: Seq<Seq<u8>>,
    first: PreparedUpload,
    before: PreparedUpload,
    after: PreparedUpload,
    m: int,
)
    requires
        keys.no_duplicates(),
        1 <= m <= keys.len(),
        upload_prefix_recorded(platforms, keys, plans, sources, paths, contents, first, before, m - 1),
        artifact_added(
            before,
            after,
            keys[m - 1],
            platforms[keys[m - 1]].signature@,
            plans[m - 1],
            sources[m - 1],
            paths[m - 1],
            contents[m - 1],
        ),
    ensures
        upload_prefix_recorded(platforms, keys, plans, sources, paths, contents, first, after, m),
{
    let now = keys.take(m);
    let prev = keys.take(m - 1);
    assert(now =~= prev.push(keys[m - 1]));
    assert forall|k: String| #[trigger]
        after.metadata.platforms@.contains_key(k) <==> now.contains(k) by {
        if now.contains(k) {
            let j = choose|j: int| 0 <= j < now.len() && #[trigger] now[j] == k;
            if j < m - 1 {
                assert(prev[j] == k);
            }
        }
        if prev.contains(k) {
            let j = choose|j: int| 0 <= j < prev.len() && #[trigger] prev[j] == k;
            assert(now[j] == k);
        }
        if k == keys[m - 1] {
            assert(now[m - 1] == k);
        }
    }
    assert forall|i: int| 0 <= i < m implies (#[trigger] after.artifacts@[i])@ == (ArtifactView {
        field_name: plans[i].field_name@,
        platform: keys[i]@,
        file_name: plans[i].file_name@,
        source_url: sources[i],
        path: paths[i],
        size: contents[i].len() as u64,
        sha256: lower_hex(spec_sha256(contents[i])),
    }) by {
        if i < m - 1 {
            assert(after.artifacts@[i] == before.artifacts@[i]);
        }
    }
    assert forall|i: int| #![trigger keys[i]] 0 <= i < m implies {
        &&& after.metadata.platforms@[keys[i]].file_field@ == plans[i].field_name@
        &&& after.metadata.platforms@[keys[i]].file_name@ == plans[i].file_name@
        &&& after.metadata.platforms@[keys[i]].signature@ == platforms[keys[i]].signature@
    } by {
        if i < m - 1 {
            assert(keys[i] != keys[m - 1]);
            assert(prev[i] == keys[i]);
            assert(before.metadata.platforms@.contains_key(keys[i]));
        }
    }
}

/// A finished upload covers its `latest.json`: when the steps visit every
/// platform once, the upload holds one artifact per platform, in the order
/// visited, the `i`-th in multipart field `artifact_<i>`, and its metadata
/// names every platform, and no other, with that field, file name and the
/// platform's signature. Version, date and notes are those it started with.
pub proof fn lemma_upload_covers_release(
    platforms: Map<String, TauriStaticPlatform>,
    keys: Seq<String>,
    plans: Seq<ArtifactPlan>,
    sources: Seq<Seq<char>>,
    paths: Seq<Seq<char>>,
    contents: Seq<Seq<u8>>,
    steps: Seq<PreparedUpload>,
)
    requires
        upload_built(platforms, keys, plans, sources, paths, contents, steps),
        keys.no_duplicates(),
        keys.to_set() == platforms.dom(),
    ensures
        ({
            let last = steps.last();
            &&& last.metadata.version == steps[0].metadata.version
            &&& last.metadata.pub_date == steps[0].metadata.pub_date
            &&& last.metadata.notes == steps[0].metadata.notes
            &&& last.metadata.platforms@.dom() == platforms.dom()
            &&& last.artifacts@.len() == keys.len()
            &&& forall|i: int|
                0 <= i < keys.len() ==> {
                    &&& (#[trigger] last.artifacts@[i])@.field_name == "artifact_"@ + decimal(
                        i as nat,
                    )
                    &&& last.artifacts@[i]@.platform == keys[i]@
                    &&& last.artifacts@[i]@.file_name == plans[i].file_name@
                    &&& last.metadata.platforms@[keys[i]].file_field@ == "artifact_"@ + decimal(
                        i as nat,
                    )
                    &&& last.metadata.platforms@[keys[i]].signature@
                        == platforms[keys[i]].signature@
                }
        }),
{
    let n = keys.len() as int;
    lemma_upload_prefix(platforms, keys, plans, sources, paths, contents, steps, n);
    assert(keys.take(n) =~= keys);
    let last = steps.last();
    assert(steps[n] == last);
    assert(last.metadata.platforms@.dom() =~= platforms.dom()) by {
        assert forall|k: String| last.metadata.platforms@.dom().contains(k) <==> platforms.dom().contains(k) by {
            assert(last.metadata.platforms@.contains_key(k) <==> keys.take(n).contains(k));
            assert(keys.to_set().contains(k) <==> keys.contains(k));
        }
    }
    assert forall|i: int| 0 <= i < keys.len() implies {
        &&& (#[trigger] last.artifacts@[i])@.field_name == "artifact_"@ + decimal(i as nat)
        &&& last.artifacts@[i]@.platform == keys[i]@
        &&& last.artifacts@[i]@.file_name == plans[i].file_name@
        &&& last.metadata.platforms@[keys[i]].file_field@ == "artifact_"@ + decimal(i as nat)
        &&& last.metadata.platforms@[keys[i]].signature@ == platforms[keys[i]].signature@
    } by {
        assert(plans[i].field_name@ == "artifact_"@ + decimal(i as nat));
        assert(keys[i] == keys[i]);
    }
}

} // verus!
