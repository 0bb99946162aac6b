//! The Telegram channel.

pub mod blocks;
pub mod channel;
pub mod chunking;
pub mod fences;
pub mod inline;
pub mod laws;
pub mod markdown;
pub mod rendering;
pub mod session;
pub mod source;
pub mod spans;
pub mod stream;
pub mod tables;
pub mod turns;
pub mod worker;
