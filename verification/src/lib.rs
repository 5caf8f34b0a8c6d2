//! Scoped anonymous rate-limited credentials: the verified core.
//!
//! A credential can produce at most `limit` unlinkable presentations for
//! each public [`PresentationContext`]. The context can identify a relying
//! party, action, and epoch without requiring a new credential.
//!
//! MAYO signing and evaluation and the VOLE-in-the-head prover and verifier
//! are supplied by the caller as closures; everything around them (hashing,
//! witnesses, statements, counters, encodings, and tag accounting) is
//! verified here.

pub mod keccak;
pub mod wire;
pub mod digest;
pub mod markers;
pub mod context;
pub mod store;
pub mod circuit;
pub mod counters;
pub mod protocol;
mod sealed;
mod secret;

pub use context::{CredentialContext, PresentationBinding, PresentationChallenge, PresentationContext};
pub use markers::{ArcParams, Error, Mayo1, Mayo2, PerformanceProfile};
pub use protocol::{
    Credential, IssueRequest, IssueResponse, Issuer, PendingIssue, Presentation, PublicKey,
    VerifiedPresentation, Verifier, MAX_APPLICATION_CONTEXT_BYTES, MAX_PRESENTATION_CONTEXTS,
};
pub use store::{MemoryTagStore, TagStore};
pub use wire::{WireError, MAX_WIRE_BYTES};
