//! Early-bird badge and single-mint token bookkeeping.
//!
//! The registry keeps, per caller identity, at most one immutable badge and at
//! most one token id, together with a single admin identity. Every operation is
//! a verified transition of an abstract model ([`RegistryModel`]); the host
//! around the library supplies the caller, the time and the canister's own
//! identity, and turns an [`Abort`] into a trap.
mod badge;
mod identity;
mod model;
mod registry;

pub mod laws;

pub use badge::{badge_opt_view, Badge, BadgeView};
pub use identity::{anonymous_bytes, Identity, ANONYMOUS_TAG};
pub use model::{already_minted_message, Abort, RegistryModel};
pub use registry::{
    badge_result_view, entries_result_view, entries_view, mint_result_view, Registry,
};
