//! Matches signed attestation records to build artifacts by content digest.
//!
//! Each artifact is identified by the SHA-256 digest of its bytes. Attestation
//! records arrive as one JSON-encoded Sigstore bundle per line; each bundle
//! attests one or more digests. The reconciler pairs every artifact with the
//! record line that attests it and fails when any artifact is left without
//! one.
pub mod codec;
pub mod extract;
pub mod json;
pub mod pending;
pub mod reconcile;

pub use extract::{
    digests_from_bundle, digests_from_statement, hashes_from_sigstore_bundle, BundleMessageDigest,
    BundleMessageSignature, ExtractError, InTotoDigest, InTotoSubject,
};
pub use json::JsonValue;
pub use reconcile::{pending_from_artifacts, reconcile, Artifact, Companion, ReconcileError};
