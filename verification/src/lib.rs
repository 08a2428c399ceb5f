//! A compact binary codec for unsigned integers and raw bytes.
//!
//! [`Encoder`] appends raw bytes, fixed-width big-endian integers and
//! self-describing variable-width integers to a growing buffer; [`Decoder`]
//! reads them back from a borrowed byte slice through a cursor. The two share
//! nothing but the wire format, which [`wire`] defines mathematically, and
//! [`roundtrip`] proves that what one writes the other reads.

pub mod decoder;
pub mod encoder;
pub mod roundtrip;
pub mod wire;

pub use decoder::{Decoder, DecoderView};
pub use encoder::{Encoder, WireValue};
