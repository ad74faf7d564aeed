use vstd::prelude::*;

use crate::error::MidiError;
use midly::live::LiveEvent;

verus! {

/// A channel-voice message with its data fields (each below 128).
#[derive(Clone, Copy, Debug, PartialEq, Eq, Structural)]
pub enum ChannelMessage {
    NoteOff { key: u8, vel: u8 },
    NoteOn { key: u8, vel: u8 },
    Aftertouch { key: u8, vel: u8 },
    Controller { controller: u8, value: u8 },
    ProgramChange { program: u8 },
    ChannelAftertouch { vel: u8 },
    /// The 14-bit bend value, `msb * 128 + lsb`.
    PitchBend { bend: u16 },
}

/// A decoded wire message: the channel (0..16) and the message.
#[derive(Clone, Copy, Debug, PartialEq, Eq, Structural)]
pub struct WireMessage {
    pub channel: u8,
    pub message: ChannelMessage,
}

pub open spec fn is_channel_status(status: u8) -> bool {
    0x80 <= status <= 0xEF
}

/// Number of data bytes that follow a channel status byte.
pub open spec fn data_arity(status: u8) -> nat {
    let hi = status / 16;
    if hi == 0xC || hi == 0xD {
        1
    } else if 0x8 <= hi <= 0xE {
        2
    } else {
        0
    }
}

/// The message that a channel status byte and its data bytes `a`, `b` denote.
pub open spec fn message_of(status: u8, a: u8, b: u8) -> ChannelMessage {
    let hi = status / 16;
    if hi == 0x8 {
        ChannelMessage::NoteOff { key: a, vel: b }
    } else if hi == 0x9 {
        ChannelMessage::NoteOn { key: a, vel: b }
    } else if hi == 0xA {
        ChannelMessage::Aftertouch { key: a, vel: b }
    } else if hi == 0xB {
        ChannelMessage::Controller { controller: a, value: b }
    } else if hi == 0xC {
        ChannelMessage::ProgramChange { program: a }
    } else if hi == 0xD {
        ChannelMessage::ChannelAftertouch { vel: a }
    } else {
        ChannelMessage::PitchBend { bend: (b * 128 + a) as u16 }
    }
}

pub open spec fn byte_or_zero(raw: Seq<u8>, i: int) -> u8 {
    if 0 <= i < raw.len() {
        raw[i]
    } else {
        0
    }
}

/// The first `n` bytes after the status byte are present and are data bytes.
pub open spec fn data_present(raw: Seq<u8>, n: nat) -> bool {
    raw.len() >= 1 + n && forall|i: int| 1 <= i <= n ==> raw[i] < 0x80
}

/// Whether midly's live parser takes the bytes for a channel-voice message:
/// it reads the data bytes up to the first byte with its high bit set, needs
/// at least as many as the status asks for, and does not look further.
pub open spec fn live_channel_accepts(raw: Seq<u8>) -> bool {
    raw.len() >= 1 && is_channel_status(raw[0]) && data_present(raw, data_arity(raw[0]))
}

/// A well-formed wire message: a channel status byte followed by exactly
/// as many data bytes as it asks for, each with its high bit clear.
pub open spec fn wire_valid(raw: Seq<u8>) -> bool {
    raw.len() >= 1 && is_channel_status(raw[0]) && raw.len() == 1 + data_arity(raw[0])
        && data_present(raw, data_arity(raw[0]))
}

/// The message that valid wire bytes denote.
pub open spec fn wire_decode(raw: Seq<u8>) -> Result<WireMessage, MidiError> {
    if wire_valid(raw) {
        Ok(
            WireMessage {
                channel: raw[0] % 16,
                message: message_of(raw[0], byte_or_zero(raw, 1), byte_or_zero(raw, 2)),
            },
        )
    } else {
        Err(MidiError::MalformedMessage)
    }
}

/// Relies on midly::live::LiveEvent::parse, for which bytes form a
/// channel-voice message.
#[verifier::external_body]
fn parse_live(raw: &[u8]) -> (r: bool)
    ensures
        r == live_channel_accepts(raw@),
{
    matches!(LiveEvent::parse(raw), Ok(LiveEvent::Midi { .. }))
}

/// Decodes raw wire bytes into a channel message. Fails with
/// `MalformedMessage` on an unknown status, a wrong number of data bytes,
/// or a data byte with its high bit set.
pub fn decode_wire(raw: &[u8]) -> (r: Result<WireMessage, MidiError>)
    ensures
        r == wire_decode(raw@),
{
    if !parse_live(raw) {
        return Err(MidiError::MalformedMessage);
    }
    let st = raw[0];
    let n: usize = if st >= 0xC0 && st < 0xE0 { 1 } else { 2 };
    if raw.len() != 1 + n {
        return Err(MidiError::MalformedMessage);
    }
    let a = raw[1];
    let b = if n == 2 { raw[2] } else { 0 };
    let hi = st / 16;
    let message = if hi == 0x8 {
        ChannelMessage::NoteOff { key: a, vel: b }
    } else if hi == 0x9 {
        ChannelMessage::NoteOn { key: a, vel: b }
    } else if hi == 0xA {
        ChannelMessage::Aftertouch { key: a, vel: b }
    } else if hi == 0xB {
        ChannelMessage::Controller { controller: a, value: b }
    } else if hi == 0xC {
        ChannelMessage::ProgramChange { program: a }
    } else if hi == 0xD {
        ChannelMessage::ChannelAftertouch { vel: a }
    } else {
        ChannelMessage::PitchBend { bend: b as u16 * 128 + a as u16 }
    };
    Ok(WireMessage { channel: st % 16, message })
}

} // verus!
