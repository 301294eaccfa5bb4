//! Verified core of the Ethos Protocol backend and contracts: SBT metadata
//! compression, feature-flag evaluation, graceful degradation, event
//! sourcing, WebAuthn ceremonies, slice weighting, template inheritance,
//! the SBT registry and the ZK attestation verifier.
pub mod compression;
pub mod clock;
pub mod feature_flags;
pub mod text;
pub mod json;
pub mod event_sourcing;
pub mod strmap;
pub mod keymap;
pub mod digest;
pub mod webauthn;
pub mod degradation;
pub mod error;
pub mod slice_performance;
pub mod template_inheritance;
pub mod zk_verifier;
pub mod sbt;
pub mod cors;
