//! Building blocks for event-sourced systems, with machine-checked contracts.
//!
//! - [`aggregate`] - command-side primitives
//! - [`projection`] - read-side primitives
//! - [`repository`] - command execution and aggregate lifecycle
//! - [`store`] - event persistence
//! - [`snapshot`] - snapshot storage
//! - [`subscription`] - read models that stay up to date
//! - [`reactor`] - side effects
//! - [`event`] - event traits
//! - [`concurrency`] - concurrency strategies and conflicts

pub mod aggregate;
pub mod concurrency;
pub mod derive;
pub mod event;
pub mod from_events;
pub mod key;
pub mod message;
pub mod order;
pub mod projection;
pub mod reactor;
pub mod repository;
mod sealed;
pub mod snapshot;
pub mod store;
pub mod subscription;
pub mod test;
