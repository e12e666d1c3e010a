//! Core logic of a Discord gateway client: the Erlang term model of gateway
//! frames, the zlib-stream inflater, the object model parsed out of frames and
//! the decisions the client takes on each event.

pub mod cache;
pub mod commands;
pub mod gateway;
pub mod inflater;
pub mod obj;
pub mod stream;
pub mod term;
pub mod text;
pub mod value;

