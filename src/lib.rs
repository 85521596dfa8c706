//! Incremental rendering of streamed text into a bounded sequence of chat
//! messages, with cooperative cancellation and a priority stream merger.
pub mod cancel;
pub mod chat;
pub mod chunk;
pub mod config;
pub mod interaction;
pub mod merge;
pub mod render;
pub mod script;
pub mod session;
pub mod text;
