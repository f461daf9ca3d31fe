//! Verified core of a Minecraft honeypot proxy: packet framing and
//! classification, the client database, and the Discord report texts.

pub mod text;
pub mod varint;
pub mod packet;
pub mod database;
pub mod webhook;
pub mod config;
pub mod logger;
