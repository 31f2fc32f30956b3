//! A verified codec for a self-describing, text-based serialization protocol.
//!
//! The crate models protocol values as a closed tagged union
//! ([`redis_value::RedisValue`]) and provides a symmetric encoder
//! (`to_resp`) and recursive-descent decoder (`from_resp`), together with
//! the low-level cursor primitives the decoder is built from
//! ([`string_manip`]) and a reader that recognizes client commands in
//! decoded values ([`command`]). Encoder and decoder are specified against
//! one mathematical model ([`redis_value::SpecValue`]); the decoder is
//! proved equal to the specification decoder ([`decode::spec_decode`]) on
//! every input, and the round-trip law and its companions are proved in
//! [`laws`].

pub mod command;
pub mod decode;
pub mod laws;
pub mod numerals;
pub mod redis_value;
pub mod string_manip;
