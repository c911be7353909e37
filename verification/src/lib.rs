//! Feature-flag evaluation and distribution core.
//!
//! The crate models flag configuration snapshots, evaluates flags
//! deterministically against caller-supplied contexts, and provides the
//! pure decision logic behind the management API, the change-propagation
//! pipeline and the authentication dispatch.

pub mod auth;
pub mod codec;
pub mod config;
pub mod decimal;
pub mod dto;
pub mod evaluator;
pub mod hasher;
pub mod json;
pub mod operators;
pub mod snapshot;
pub mod stream;
pub mod strutil;
pub mod types;

pub use evaluator::Evaluator;
pub use hasher::bucket;
pub use hasher::murmurhash3;
