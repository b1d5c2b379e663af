pub mod auth;
pub mod blocks;
pub mod chunk;
pub mod err;
pub mod frame;
pub mod handshake;
pub mod laws;
pub mod login;
pub mod packed;
pub mod parse;
pub mod play;
pub mod session;
pub mod status;
pub mod store;
pub mod reader;
pub mod template;
pub mod text;
pub mod wire;
pub mod writer;
