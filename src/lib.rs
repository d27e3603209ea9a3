//! An in-memory key-value cache speaking a memcached-style line protocol:
//! identifier generation, request framing, command tokenizing and parsing,
//! the cache engine and the encoding of responses.

pub mod id_generator;
pub mod frame;
pub mod parse;
pub mod cache;
pub mod get;
pub mod set;
pub mod commands;
pub mod connection;
