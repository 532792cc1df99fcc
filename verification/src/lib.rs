//! A small chat protocol: the messages that clients and the server exchange,
//! their encoding into fixed-size frames, the text form used by the client
//! prototype, and the decisions the server takes about its connections.
#![allow(non_snake_case)]

pub mod text;
pub mod protocol;
pub mod pattern;
pub mod parse;
pub mod roster;
pub mod session;
