//! Rootless FHS sandbox constructor: the verified core.
//!
//! The library plans and models the steps that build an ephemeral FHS root
//! for a rootless sandbox: parsing subordinate-id delegations, constructing
//! uid/gid mapping plans, planning bind-mount sets with exclusion and
//! precedence rules, ordering the root composition and pivot sequences, and
//! preparing the in-process environment. All filesystem, namespace and
//! subprocess work is carried out by a thin unverified shell around this
//! crate, which feeds plain values in and carries the planned actions out.

pub mod envprep;
pub mod strutil;
pub mod subid;
pub mod idmap;
pub mod bindset;
pub mod compose;
pub mod pivot;
pub mod nsenter;
pub mod lifecycle;
pub mod launch;
pub mod fhspath;
pub mod fhsdef;
pub mod errors;
