//! Capture of live MIDI input into Standard MIDI Files: decoding of wire
//! messages, tick quantization, track assembly and the binary file codec.

/// Error kinds.
pub mod error;
/// Channel-voice messages as they come off the wire.
pub mod wire;
/// Variable-length quantities.
pub mod vlq;
/// The file model, its well-formedness and its byte encoding.
pub mod smf;
/// Writing a file to bytes.
pub mod encode;
/// What bytes decode to.
pub mod decode;
/// Reading bytes into a file.
pub mod reader;
/// Decoding an encoded file gives it back.
pub mod roundtrip;
/// Wall-clock times to tick deltas.
pub mod quantize;
/// The meta track and the note track of a capture.
pub mod builder;
/// Console rendering of wire messages.
pub mod text;
