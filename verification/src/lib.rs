//! Core of an e-book reading service: a stateless token service with an
//! authorization guard, a per-(user, book) reading-progress tracker, a
//! per-(user, book, day) analytics aggregator with bulk ingest and
//! read-side stats, the account directory behind register and login, and
//! the reference catalog the other parts check identifiers against.
//!
//! Each store's meaning is a finite map from its uniqueness key to its
//! row; every operation's contract says exactly which map it leaves
//! behind and which result it returns, and the endpoint-level functions
//! state how the authorization guard decides before any store is
//! touched. The surrounding process contributes only transport: HTTP
//! framing, JSON, files and the clock.

pub mod analytics;
pub mod auth;
pub mod catalog;
pub mod config;
pub mod errors;
pub mod progress;
pub mod reader;
pub mod rows;
pub mod users;

pub use errors::ServiceError;
