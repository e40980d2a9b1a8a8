//! What the operations of this crate are for, stated in terms of their inputs and
//! results.

pub mod address;
pub mod connection;
pub mod control;
pub mod device;
pub mod frame;
pub mod messages;
pub mod profile;
pub mod text;
pub mod tunnel;
