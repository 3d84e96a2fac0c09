//! A verified proof-of-existence claim registry.
//!
//! A claim is a short byte sequence used verbatim as a key. The registry maps
//! each registered claim to the identity that owns it and the logical time at
//! which it was first created. Three operations change the registry: `create`,
//! `revoke` and `transfer`, each gated by ownership and size validation.

pub mod laws;
pub mod registry;
