//! A small request-serving engine and the chat application built on it.
//!
//! The engine reads one request from the bytes of a connection
//! ([`request`]), picks the handler registered for its method and path
//! ([`registry`]), and lays out the handler's reply for the wire
//! ([`response`]). A single dispatcher owns the registry and decides whether
//! a new connection is admitted ([`server`], [`gate`]). The sockets, the
//! threads and the files stay with the program that uses the library.
//!
//! The application keeps users and their messages ([`sessions`], [`user`],
//! [`message`]) and answers its endpoints ([`chat`]). Both parts rest on
//! sequences of characters ([`text`]) and on a table from names to values
//! ([`table`]).

pub mod chat;
pub mod gate;
pub mod message;
pub mod registry;
pub mod request;
pub mod response;
pub mod server;
pub mod sessions;
pub mod table;
pub mod text;
pub mod user;
