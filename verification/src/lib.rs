//! A codec for the Bencode wire format, with the small formats and records
//! that are built on it.
//!
//! Every executable function carries a contract over a mathematical model of
//! its arguments, and the contracts are proved.

pub mod bencode;
pub mod config;
pub mod metainfo;
pub mod text;
pub mod urlencoded;
