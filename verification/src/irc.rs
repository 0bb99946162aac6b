//! The IRC channel.

pub mod addressing;
pub mod channels;
pub mod config;
pub mod conn;
pub mod dispatch;
pub mod laws;
pub mod loop_guard;
pub mod proto;
pub mod session;
pub mod wire;
pub mod worker;
