use vstd::prelude::*;

use crate::error::{MidiError, ParseError};
use crate::smf::{header_tag, is_end_of_track, track_tag, EventModel, FileModel, Format, KindModel, MetaModel};
use crate::vlq::vlq_parse;
use crate::wire::{byte_or_zero, data_arity, is_channel_status, message_of};

verus! {

pub open spec fn be16_at(s: Seq<u8>, p: int) -> nat {
    (s[p] * 256 + s[p + 1]) as nat
}

pub open spec fn be32_at(s: Seq<u8>, p: int) -> nat {
    (((s[p] * 256 + s[p + 1]) * 256 + s[p + 2]) * 256 + s[p + 3]) as nat
}

pub open spec fn sharps_of(b: u8) -> i8 {
    if b >= 128 {
        (b - 256) as i8
    } else {
        b as i8
    }
}

/// The meta event of type `t` with payload `d`.
pub open spec fn parse_meta(t: u8, d: Seq<u8>) -> Result<MetaModel, MidiError> {
    if t == 0x58 && d.len() == 4 {
        Ok(MetaModel::TimeSignature(d[0], d[1], d[2], d[3]))
    } else if t == 0x59 && d.len() == 2 && d[1] < 2 {
        Ok(MetaModel::KeySignature(sharps_of(d[0]), d[1] == 1))
    } else if t == 0x51 && d.len() == 3 {
        Ok(MetaModel::Tempo((d[0] * 0x1_0000 + d[1] * 256 + d[2]) as u32))
    } else if t == 0x03 {
        Ok(MetaModel::TrackName(d))
    } else if t == 0x2F && d.len() == 0 {
        Ok(MetaModel::EndOfTrack)
    } else {
        Err(MidiError::MalformedMessage)
    }
}

/// Reads one event at `pos` of a chunk's contents `c`; yields the event and
/// the position after it.
pub open spec fn parse_event(c: Seq<u8>, pos: int) -> Result<(EventModel, int), MidiError> {
    match vlq_parse(c, pos) {
        Err(e) => Err(e),
        Ok((d, at_body)) => {
            if at_body >= c.len() {
                Err(MidiError::Parse(ParseError::UnexpectedEOF))
            } else if c[at_body] == 0xFF {
                if at_body + 1 >= c.len() {
                    Err(MidiError::Parse(ParseError::UnexpectedEOF))
                } else {
                    match vlq_parse(c, at_body + 2) {
                        Err(e) => Err(e),
                        Ok((n, at_data)) => {
                            if at_data + n > c.len() {
                                Err(MidiError::Parse(ParseError::UnexpectedEOF))
                            } else {
                                match parse_meta(c[at_body + 1], c.subrange(at_data, at_data + n)) {
                                    Err(e) => Err(e),
                                    Ok(m) => Ok(
                                        (EventModel { delta: d as u32, kind: KindModel::Meta(m) }, at_data + n),
                                    ),
                                }
                            }
                        },
                    }
                }
            } else if is_channel_status(c[at_body]) {
                let k = data_arity(c[at_body]);
                if at_body + 1 + k > c.len() {
                    Err(MidiError::Parse(ParseError::UnexpectedEOF))
                } else if c[at_body + 1] >= 128 || (k == 2 && c[at_body + 2] >= 128) {
                    Err(MidiError::MalformedMessage)
                } else {
                    Ok(
                        (
                            EventModel {
                                delta: d as u32,
                                kind: KindModel::Midi {
                                    channel: c[at_body] % 16,
                                    message: message_of(c[at_body], c[at_body + 1], byte_or_zero(c, at_body + 2)),
                                },
                            },
                            at_body + 1 + k,
                        ),
                    )
                }
            } else {
                Err(MidiError::MalformedMessage)
            }
        },
    }
}

/// Reads the events of a chunk's contents `c` from `pos` on, after those in
/// `acc`: the chunk must end right after its first `EndOfTrack`.
pub open spec fn parse_events(c: Seq<u8>, pos: int, acc: Seq<EventModel>) -> Result<
    Seq<EventModel>,
    MidiError,
>
    decreases c.len() - pos,
{
    if pos < 0 || pos >= c.len() {
        Err(MidiError::Parse(ParseError::MissingEndOfTrack))
    } else {
        match parse_event(c, pos) {
            Err(e) => Err(e),
            Ok((e, p)) => {
                if p <= pos || p > c.len() {
                    Err(MidiError::Parse(ParseError::UnexpectedEOF))
                } else if is_end_of_track(e) {
                    if p == c.len() {
                        Ok(acc.push(e))
                    } else {
                        Err(MidiError::Parse(ParseError::LengthMismatch))
                    }
                } else {
                    parse_events(c, p, acc.push(e))
                }
            },
        }
    }
}

/// Reads `remaining` track chunks from `pos` on, after those in `acc`; the
/// input must end right after the last of them.
pub open spec fn parse_tracks(s: Seq<u8>, pos: int, remaining: nat, acc: Seq<Seq<EventModel>>) -> Result<
    Seq<Seq<EventModel>>,
    MidiError,
>
    decreases remaining,
{
    if pos < 0 || pos > s.len() {
        Err(MidiError::Parse(ParseError::UnexpectedEOF))
    } else if remaining == 0 {
        if pos == s.len() {
            Ok(acc)
        } else {
            Err(MidiError::Parse(ParseError::LengthMismatch))
        }
    } else if pos == s.len() {
        Err(MidiError::Parse(ParseError::LengthMismatch))
    } else if pos + 8 > s.len() {
        Err(MidiError::Parse(ParseError::UnexpectedEOF))
    } else if s.subrange(pos, pos + 4) != track_tag() {
        Err(MidiError::Parse(ParseError::BadChunkTag))
    } else {
        let len = be32_at(s, pos + 4);
        if pos + 8 + len > s.len() {
            Err(MidiError::Parse(ParseError::UnexpectedEOF))
        } else {
            match parse_events(s.subrange(pos + 8, pos + 8 + len), 0, seq![]) {
                Err(e) => Err(e),
                Ok(evs) => parse_tracks(s, pos + 8 + len, (remaining - 1) as nat, acc.push(evs)),
            }
        }
    }
}

pub open spec fn format_of(code: nat) -> Format {
    if code == 0 {
        Format::SingleTrack
    } else if code == 1 {
        Format::Parallel
    } else {
        Format::Sequential
    }
}

/// The file that bytes `s` hold, or the first failure met reading them.
pub open spec fn parse_file(s: Seq<u8>) -> Result<FileModel, MidiError> {
    if s.len() < 14 {
        Err(MidiError::Parse(ParseError::UnexpectedEOF))
    } else if s.subrange(0, 4) != header_tag() {
        Err(MidiError::Parse(ParseError::BadChunkTag))
    } else if be32_at(s, 4) != 6 {
        Err(MidiError::Parse(ParseError::LengthMismatch))
    } else if be16_at(s, 8) > 2 || be16_at(s, 12) >= 0x8000 {
        Err(MidiError::Parse(ParseError::BadChunkTag))
    } else {
        match parse_tracks(s, 14, be16_at(s, 10), seq![]) {
            Err(e) => Err(e),
            Ok(ts) => Ok(
                FileModel { format: format_of(be16_at(s, 8)), division: be16_at(s, 12) as u16, tracks: ts },
            ),
        }
    }
}

} // verus!
