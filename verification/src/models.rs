//! Wire and persistence models shared by UDS routes, storage and clients.
//!
//! These types make the update protocol explicit and keep serialized data
//! independent from the services that read or write it.

use std::collections::BTreeMap;

use vstd::prelude::*;

verus! {

#[verifier::external_type_specification]
#[verifier::external_body]
pub struct ExOffsetDateTime(time::OffsetDateTime);

/// Metadata supplied by an administrator when publishing a release.
pub struct ReleaseUploadMetadata {
    pub version: String,
    pub pub_date: Option<String>,
    pub notes: String,
    pub platforms: BTreeMap<String, UploadPlatformMetadata>,
}

/// How one uploaded platform artifact maps to multipart form data.
pub struct UploadPlatformMetadata {
    pub file_field: String,
    pub file_name: String,
    pub signature: String,
}

/// Durable description of a release stored in a UDS channel.
pub struct ReleaseManifest {
    pub version: String,
    pub pub_date: Option<String>,
    pub notes: String,
    pub withdrawn: bool,
    pub platforms: BTreeMap<String, PlatformArtifact>,
    pub updated_at: time::OffsetDateTime,
}

/// Compact release representation returned by the administrative list API.
pub struct ReleaseListEntry {
    pub version: String,
    pub pub_date: Option<String>,
    pub withdrawn: bool,
    pub platforms: Vec<String>,
    pub updated_at: time::OffsetDateTime,
}

/// All releases visible in one channel.
pub struct ReleaseListResponse {
    pub releases: Vec<ReleaseListEntry>,
}

/// Immutable artifact metadata referenced by a release manifest.
pub struct PlatformArtifact {
    pub file_name: String,
    pub signature: String,
    pub size: u64,
    pub sha256: String,
}

/// Update response expected by the Tauri v2 updater.
pub struct TauriUpdateResponse {
    pub version: String,
    pub url: String,
    pub signature: String,
    pub pub_date: Option<String>,
    pub notes: String,
}

/// Administrative request for replacing a release's human-readable notes.
pub struct ChangelogPatchRequest {
    pub notes: String,
}

/// Administrative request for promoting an existing release between channels.
pub struct CopyReleaseRequest {
    pub source_channel: String,
    pub version: String,
}

/// Digest-backed catalog item used to compare state between fleet nodes.
pub struct CatalogEntry {
    pub channel: String,
    pub version: String,
    pub withdrawn: bool,
    pub manifest_sha256: String,
}

/// Fleet catalog snapshot containing the releases known by one node.
pub struct CatalogResponse {
    pub entries: Vec<CatalogEntry>,
}

/// Notification that a release mutation must be reconciled across the fleet.
pub struct ReplicationEvent {
    pub event_id: String,
    pub event_type: ReplicationEventType,
    pub channel: String,
    pub version: String,
}

/// Release mutations that can require replication to peer nodes.
#[derive(Clone, Copy, PartialEq, Eq, Structural, Debug)]
pub enum ReplicationEventType {
    ReleaseUploaded,
    ChangelogPatched,
    ReleaseWithdrawn,
    ReleaseCopied,
}

/// Result of an administrative mutation and its fleet replication attempt.
pub struct MutationResponse {
    pub channel: String,
    pub version: String,
    pub replicated: bool,
}

/// Server-enforced upload limits advertised to administration clients.
pub struct UploadPolicy {
    pub max_artifact_bytes: u64,
    pub max_total_artifact_bytes: u64,
    pub max_metadata_bytes: u64,
    pub max_platforms: usize,
}

} // verus!
