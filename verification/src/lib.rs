//! A named-lock coordinator: a registry that maps client-supplied string
//! names to lock entries, each holding a count of outstanding holds, and
//! the acquire/release protocol on top of it.

pub mod entry;
pub mod error;
pub mod laws;
pub mod protocol;
pub mod registry;
