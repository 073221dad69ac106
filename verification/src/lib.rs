//! Core of an event-scheduling service: teams, users, talks and sign-ups,
//! kept consistent across many connected clients.
//!
//! The library holds the verified logic only: the state store and its
//! invariants, authentication and token handling, the role/capability
//! authorization model, the command engine that turns client commands into
//! state changes and broadcast events, and the reconciler that diffs a
//! freshly loaded snapshot against live state.  Transport, file handling and
//! JSON encoding live outside the library and exchange plain values with it.

pub mod auth;
pub mod authorization;
pub mod calendar;
pub mod crypto;
pub mod load;
pub mod messages;
pub mod reconcile;
pub mod storage;
pub mod talks;
