//! GimmeURL: a file-sharing server on the local machine.
//!
//! Files are cut into chunks and offered to receivers under links; the
//! receivers of a file form a swarm, whose peers find each other through a
//! signaling channel. This crate holds what the server knows and decides.
//! Reading files, talking to the network and drawing windows is left to the
//! program around it.

pub mod channel;
pub mod chunks;
pub mod clock;
pub mod effects;
pub mod events;
pub mod history;
pub mod http;
pub mod ident;
pub mod laws;
pub mod links;
pub mod model;
pub mod names;
pub mod registry;
pub mod render;
pub mod sandbox;
pub mod scans;
pub mod sharing;
pub mod state;
pub mod swarms;
pub mod tables;
pub mod text;
pub mod transfer;
pub mod wording;
