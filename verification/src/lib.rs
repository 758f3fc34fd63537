//! A shared presence registry: ephemeral clients register, poll for the
//! collective state and update a colour, while stale clients are swept out.
//!
//! The registry takes the time of every call from its caller and owns no
//! clock, lock or file: whoever hosts it reads the clock, guards the one
//! registry of the process and reads the word lists for display names.

pub mod client;
pub mod ident;
pub mod laws;
pub mod model;
pub mod names;
pub mod registry;
pub mod session;

pub use client::Client;
pub use registry::{GlobalState, Registry, RegistryError};
pub use session::Session;
