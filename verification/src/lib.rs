//! A verified implementation of the Salem/Hafen client protocol: the wire
//! codec, the message formats and the client session state machine.
pub mod error;
pub mod codec;
pub mod list;
pub mod proto;
pub mod state;
pub mod shift_to_unsigned;
pub mod to_unsigned;
pub mod ai_decl;
pub mod auth;
pub mod util;
pub mod driver;
pub mod web;
pub mod pages;
pub mod follow;
