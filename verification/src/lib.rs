//! Verified core of a small team-chat system: the client's command parser and
//! request encoder, the server's data model and command handling, and the
//! persistence format of the server's data.
pub mod text;
pub mod command;
pub mod parser;
pub mod protocol;
pub mod encoder;
pub mod ffi;
pub mod models;
pub mod client;
pub mod server_model;
pub mod server;
pub mod storage;
pub mod cli;
pub mod laws;
pub mod replies;
pub mod reload;
