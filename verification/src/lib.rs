//! A canonical-ABI style marshalling layer together with a poll-driven
//! model of byte streams and sockets.
//!
//! The crate has two halves:
//!
//! * a value codec (`value`, `codec`, `wire`) that lowers structured values
//!   (scalars, options, results, variants, flags, records, tuples, lists,
//!   strings) into a flat byte representation and fallibly lifts them back,
//!   with a proved round-trip guarantee;
//! * a non-blocking I/O model (`poll`, `stream`, `socket`) in which blocking
//!   convenience operations are layered over a readiness-poll primitive.

pub mod boundary;
pub mod codec;
pub mod poll;
pub mod socket;
pub mod stream;
pub mod value;
pub mod wire;
