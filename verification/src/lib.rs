//! A minimal DNS message codec and single-hop forwarding resolver.
//!
//! Every wire structure comes with a mathematical description of its layout:
//! a grammar that says what is read from a run of bytes, and a byte form that
//! says what is written for a value. The executable decoders and encoders are
//! proved to agree with both, and decoding is proved to undo encoding
//! wherever a value can be written.
//!
//! - `error`: why decoding or encoding fails.
//! - `wire`: big-endian integers.
//! - `traits`: reading and writing single values and lists of them, and
//!   resolving compression pointers.
//! - `header`, `name`, `question`, `answer`, `message`: the structures.
//! - `name_laws`, `codec_laws`: what holds across encoding, decoding and
//!   resolution.
//! - `forward`: the decisions of the forwarding resolver, free of I/O.

pub mod error;
pub mod wire;
pub mod traits;
pub mod header;
pub mod name;
pub mod name_laws;
pub mod question;
pub mod answer;
pub mod message;
pub mod codec_laws;
pub mod forward;
