//! Selective field signing for JSON entity documents.
//!
//! A registry says, per entity type, which top-level fields of an entity are
//! sealed with an Ed25519 proof. Signing embeds a proof record in each selected
//! field; verification recomputes the signed bytes of each field and reports a
//! status per field.

pub mod assoc;
pub mod canonical;
pub mod config;
pub mod crypto;
pub mod info;
pub mod json;
pub mod order;
pub mod record;
pub mod request;
pub mod sign;
pub mod verify;
