//! A publish/subscribe message bus seen as a tree of files.
//!
//! Writing a file publishes its bytes on the subject named after the file;
//! reading a file waits for one message on that subject. This crate holds
//! the part of such a filesystem that decides: the in-memory tree of nodes
//! ([`vfs`], over the name tables of [`table`]) and the bridge that turns
//! filesystem operations into requests to the bus and the bus's replies
//! into answers ([`srvfs`]). Talking to the kernel and to the bus is left
//! to the embedding program.
//!
//! Contracts are stated over the mathematical values of [`model`]; what
//! holds of those values whatever was done is proved in [`laws`].

pub mod attr;
pub mod error;
pub mod laws;
pub mod model;
pub mod srvfs;
pub mod table;
pub mod vfs;
