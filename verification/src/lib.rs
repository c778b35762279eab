//! Authorization core of a small multi-user task-list service.
//!
//! Every request passes three checks in order: the caller's credentials are
//! resolved to an identity, the route is checked against a role-based policy,
//! and access to a single task item is checked against its owner.
//!
//! - [`auth`] reads credentials from a request and resolves them against
//!   the answer of the user directory.
//! - [`policy`] holds the rules and role assignments and decides requests;
//!   [`matcher`] and [`roles`] say when a rule covers a request.
//! - [`models`] holds the records and the ownership rule, [`apis`] what the
//!   handlers decide with it.
//! - [`pipeline`] takes one request through the stages.
//!
//! The library performs no input or output. The program around it asks the
//! directory and the database and reports what they answered.

pub mod apis;
pub mod auth;
pub mod matcher;
pub mod models;
pub mod pipeline;
pub mod policy;
pub mod roles;
pub mod text;
