//! Trust core of a multi-tenant space store: a hash-chained audit ledger and a
//! multi-scheme request authenticator.
//!
//! - [`audit`]: ledger verification, append with retention trimming, listing.
//! - [`event`] and [`codec`]: events as ordered JSON members, their canonical
//!   text and hash, and the ledger's one-object-per-line file form.
//! - [`auth`] and [`config`]: credential configuration and the authentication decision.
//! - [`service_key`]: hashing of service-account key secrets.
//! - [`storage`]: storage root URIs and space names.
//! - [`crypto`], [`json`], [`text`], [`clock`]: the primitives the above rest on.

pub mod audit;
pub mod auth;
pub mod clock;
pub mod codec;
pub mod config;
pub mod crypto;
pub mod event;
pub mod json;
pub mod service_key;
pub mod storage;
pub mod text;
