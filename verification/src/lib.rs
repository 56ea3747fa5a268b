//! A minimal client library for a remote chat-completion API.
//!
//! The library owns everything that can be checked: building a conversation
//! (an ordered list of role-tagged messages), encoding it into the JSON wire
//! format, parsing the server's JSON reply, classifying HTTP outcomes into
//! the error taxonomy, and the decisions of the interactive loop. The
//! surrounding binary only performs I/O (reading the key file, the HTTPS
//! POST, terminal input and output) and hands plain values in and out.

pub mod client;
pub mod conversation;
pub mod parser;
pub mod roundtrip;
pub mod text;
pub mod wire;
