//! Error values surfaced by the decoders and the document container.

use vstd::prelude::*;

verus! {

/// Everything that can go wrong while decoding bytes, editing a document, or
/// listening to a live input.
///
/// Structural file errors (a malformed chunk tag, a missing header, a starved
/// read) abort a whole decode; `UnknownMetaEvent` and `IllegibleString` are
/// per-event and the track decoder skips past them.
#[derive(Clone, Debug, PartialEq)]
pub enum ApresError {
    /// The file could not be read at all.
    InvalidMIDIFile(String),
    /// A chunk tag or an event could not be parsed; carries the offending bytes.
    InvalidBytes(Vec<u8>),
    /// A meta event with sound framing but an unrecognized sub-type or an
    /// unexpected payload size; carries the event's bytes. Non-fatal.
    UnknownMetaEvent(Vec<u8>),
    /// A text meta event whose payload is not valid UTF-8; carries the
    /// payload bytes. Non-fatal.
    IllegibleString(Vec<u8>),
    /// `replace_event` was handed an id that the document does not hold.
    EventNotFound(u64),
    /// An insert beyond the supported track range.
    TrackOutOfBounds,
    /// A path that could not be opened.
    PathNotFound(String),
    /// The live input source disconnected.
    PipeBroken,
    /// An `MTrk` chunk arrived before any `MThd` header.
    MissingHeader,
    /// The live listener was stopped.
    Killed,
    /// A live input device that does not exist.
    BadDevice(u8),
    /// The platform layer ran out of memory.
    OutOfMemory,
    /// An unclassified platform failure.
    UnknownError,
}

} // verus!
