//! Approvals and permission grants that are given once and hold in every later
//! session on the same machine.
//!
//! [`local_actor_approvals`] keeps approvals of what the bundled browser and
//! computer-use plugins do; [`persistent_permissions`] keeps grants of
//! permissions. Both decide what to keep, under which name and with which
//! contents, and what of it holds for a request; reading and writing files is
//! left to the caller.

pub mod approval_meta;
pub mod digest;
pub mod elicitation;
pub mod json;
pub mod local_actor_approvals;
pub mod persistent_permissions;
pub mod requirements;
pub mod serde_value;
pub mod storage;
pub mod text;
