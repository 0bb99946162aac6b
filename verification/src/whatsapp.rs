//! WhatsApp Business: inbound webhooks, sessions, statuses and outbound messages.

pub mod channel;
pub mod graph;
pub mod laws;
pub mod session;
pub mod webhook;
