//! A Standard MIDI File engine: a variable-length-quantity codec, a typed
//! event model with byte-exact serialization and deserialization, a
//! position-indexed document container, and a live-input event decoder.

pub mod error;
pub mod event;
pub mod keysig;
pub mod live;
pub mod midi;
pub mod parse;
pub mod props;
pub mod stream;
pub mod varlen;
