//! Device presence tracking and per-device session supervision for a
//! screen-mirroring front end.
//!
//! The crate holds the decisions of the front end as verified state
//! machines and text functions. Spawning processes, sleeping, reading
//! streams and delivering events are left to the caller, which feeds every
//! observation back in as a plain value.

pub mod device_list;
pub mod escape;
pub mod event;
pub mod messages;
pub mod release;
pub mod serial;
pub mod session;
pub mod session_laws;
pub mod terminal;
pub mod text;
pub mod tool_paths;
pub mod watcher;
