//! Bulk unique short-code generation.
//!
//! The crate produces large batches of fixed-length codes drawn from a
//! restricted alphabet.  Within one batch, codes are exactly distinct;
//! against all previously persisted batches, collisions are excluded up to
//! the bounded false-positive rate of per-batch probabilistic membership
//! filters, which are persisted beside the code lists and reloaded on later
//! runs.

pub mod alphabet;
pub mod bank;
pub mod builder;
pub mod codec;
pub mod config;
pub mod errors;
pub mod filter;
pub mod short_link;
