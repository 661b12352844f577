//! Declarative account-constraint validation and typed serialization.
//!
//! Raw, caller-supplied accounts are checked against a constraint schema,
//! decoded through a discriminator-tagged codec, screened for aliased mutable
//! accounts, and written back on exit.
pub mod account;
pub mod codec;
pub mod duplicates;
pub mod error;
pub mod evaluator;
pub mod exit;
pub mod instruction;
pub mod memo;
pub mod schema;
