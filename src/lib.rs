//! Core of a multi-room, IRC-style chat server: the wire protocol and its
//! encoding, the frame buffer that splits a byte stream into JSON values,
//! users, rooms, and the per-tick room processor.

pub mod json;
pub mod proto;
pub mod text;
pub mod names;
pub mod frame;
pub mod user;
pub mod room;
pub mod config;
pub mod server;
pub mod handlers;
pub mod tick;
pub mod proto2;
pub mod framing;
pub mod command;
