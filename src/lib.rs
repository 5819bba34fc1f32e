//! Checks that a fixed set of configuration directories exists under the
//! user's home directory, plans the creation of the missing ones, and names
//! the file that a fetched archive is written to.
//!
//! Everything that touches the filesystem or the network is left to the
//! caller: the library takes what was observed as plain values and returns
//! what to do next.
pub mod directory;
pub mod checker;
pub mod creator;
pub mod fetch;
pub mod model;
