//! A decoder for a compact, memoizing, JSON-like wire encoding. The peer
//! replaces previously seen values with small integer back-references into a
//! bounded, wrap-around dictionary, tags composite values with integer type
//! markers, and carries an explicit per-message sequence counter. The
//! `Unpacker` walks one packed envelope at a time, reconstructs the value it
//! encodes, and keeps the dictionary and sequence state in step with the peer.

pub mod laws;
pub mod render;
pub mod scan;
pub mod unpacker;
pub mod value;

pub use render::to_json_text;
pub use unpacker::{Unpacker, UnpackerError};
pub use value::{clone_val, Val, ValS};
