//! The decision logic of the nucleus agent, which bridges the devices behind it
//! to a server over one WebSocket.
//!
//! Nothing here reads a socket or a file: each function takes what was read and
//! says what follows. Sockets, files, commands and JSON messages are handled by
//! the program around this library.

pub mod connection;
pub mod control;
pub mod frame;
pub mod health;
pub mod laws;
pub mod messages;
pub mod text;
pub mod tunnel;
