//! The deciding half of a peer-to-peer file beacon: what is sealed and how, what
//! counts as the same chunk, what is said on the wire, and how a received tree is
//! browsed, edited and written out.
//!
//! Sockets, files, the terminal and the object store stay with the program around
//! it, which hands in plain values and carries out what it is asked for.

pub mod browse;
pub mod browse_laws;
pub mod browse_steps;
pub mod cipher;
pub mod digest;
pub mod entry;
pub mod measure;
pub mod screen;
pub mod text;
pub mod wire;
