use vstd::prelude::*;

verus! {

/// Failures of the binary read path.
#[derive(Clone, Copy, Debug, PartialEq, Eq, Structural)]
pub enum ParseError {
    UnexpectedEOF,
    BadChunkTag,
    LengthMismatch,
    BadVLQ,
    MissingEndOfTrack,
}

/// Every failure that the library reports.
#[derive(Clone, Copy, Debug, PartialEq, Eq, Structural)]
pub enum MidiError {
    /// A wire message or an event body is not a valid channel message.
    MalformedMessage,
    /// A captured message could not be decoded while building a file.
    InvalidEventStream,
    /// The bytes do not form a Standard MIDI File.
    Parse(ParseError),
    /// A value is out of the range that the file format can hold.
    EncodeError,
}

} // verus!
