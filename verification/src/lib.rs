//! Rating-tier reconciliation for a chat community.
//!
//! A member links an account on a rating service to their identity in a
//! guild; the member's rating is then mirrored by exactly one *tier role*.
//! This crate holds the rules of that arrangement and proves them:
//!
//! * [`tiers`]: the static table from ratings to tier roles.
//! * [`reconcile`]: the smallest list of role mutations that makes a
//!   member's roles match a target tier.
//! * [`flow`]: the step-by-step protocol of the user-facing operations.
//!   Remote calls (storage, rating service, chat platform) are made by the
//!   caller; a flow only says which call comes next and what its answer
//!   leads to.
//! * [`runs`]: what holds of every run of a flow, whatever the remote calls
//!   answer.
//! * [`response`]: what the member is told.
//! * [`challenge`], [`links`], [`registry`]: the records that are kept per
//!   member, and tables that keep them in memory.
//! * [`admission`]: one operation per member at a time.
//!
//! Nothing here performs I/O, blocks, or panics.

pub mod admission;
pub mod challenge;
pub mod flow;
pub mod links;
pub mod reconcile;
pub mod registry;
pub mod response;
pub mod runs;
pub mod tiers;

pub use crate::flow::{link, unlink};
