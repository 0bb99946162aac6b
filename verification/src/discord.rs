//! Discord: settings, addressing, sessions, history, rendering and the gateway.

pub mod addressing;
pub mod attachments;
pub mod commands;
pub mod config;
pub mod delivery;
pub mod gateway;
pub mod history;
pub mod laws;
pub mod live_answer;
pub mod markdown;
pub mod routing;
pub mod runtime;
pub mod session;
pub mod tools;
