//! Reverse tunnel proxy core: framed wire protocol, crypto helpers, and the
//! registry state machines shared by the server and the client.

pub mod codec;
pub mod client_state;
pub mod config;
pub mod console;
pub mod crypto;
pub mod frame_reader;
pub mod mux;
pub mod protocol;
pub mod server_state;
