//! Chat-channel extensions: the routing, rendering, session and protocol rules
//! of five chat networks, stated and proved.

pub mod addressing;
pub mod discord;
pub mod encoding;
pub mod generations;
pub mod ground_laws;
pub mod irc;
pub mod json;
pub mod json_laws;
pub mod keyed;
pub mod lines;
pub mod markup;
pub mod paths;
pub mod slack;
pub mod split;
pub mod split_laws;
pub mod telegram;
pub mod text;
pub mod text_laws;
pub mod urls;
pub mod whatsapp;
