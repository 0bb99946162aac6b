//! Slack: settings, addressing, sessions, history, rendering and the socket.

pub mod addressing;
pub mod api;
pub mod attachments;
pub mod commands;
pub mod config;
pub mod events;
pub mod history;
pub mod laws;
pub mod live_answer;
pub mod mrkdwn;
pub mod requests;
pub mod runtime;
pub mod session;
pub mod thinking;
pub mod tools;
pub mod traffic;
