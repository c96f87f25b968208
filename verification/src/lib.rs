//! Threshold splitting of a spend authorizing key among named participants.
//!
//! A key is split into one secret key package per participant, so that any
//! `min_signers` of them can jointly use it, together with the public key
//! package of the group. The secret sharing itself is that of the FROST
//! implementation; what this library adds, and proves, is the bookkeeping
//! around it: which configurations are refused, which identity an issued share
//! belongs to, and that a split hands out either one key package to every
//! identity or nothing.

pub mod config;
pub mod error;
pub mod identity;
pub mod mapping;
pub mod package;
pub mod primitive;
pub mod shares;
pub mod split;

pub use crate::config::SecretShareConfig;
pub use crate::error::ErrorKind;
pub use crate::error::SplitSecretError;
pub use crate::identity::Identity;
pub use crate::mapping::IdentifierMapping;
pub use crate::package::PublicKeyPackage;
pub use crate::shares::ShareMapping;
pub use crate::split::split_secret;
