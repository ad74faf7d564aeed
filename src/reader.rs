use vstd::prelude::*;
use vstd::slice::{slice_subrange, slice_to_vec};

use crate::decode::{be16_at, be32_at, format_of, parse_event, parse_events, parse_file, parse_meta, parse_tracks};
use crate::error::{MidiError, ParseError};
use crate::smf::{header_tag, is_end_of_track, track_tag, EventModel, FileModel, Format, Header, MetaModel, MetaPayload, SmfFile, Track, TrackEvent, TrackEventKind};
use crate::vlq::{vlq_parse, vlq_read, VLQ_MAX};
use crate::wire::ChannelMessage;

verus! {

spec fn group_cap(count: nat) -> nat {
    if count == 0 {
        1
    } else if count == 1 {
        0x80
    } else if count == 2 {
        0x4000
    } else if count == 3 {
        0x20_0000
    } else {
        0x1000_0000
    }
}

proof fn lemma_vlq_read_bound(s: Seq<u8>, pos: int, acc: nat, count: nat)
    requires
        count <= 4,
        acc < group_cap(count),
    ensures
        vlq_read(s, pos, acc, count) matches Ok((v, p)) ==> v <= VLQ_MAX && pos < p <= s.len(),
    decreases 4 - count,
{
    if count < 4 && 0 <= pos < s.len() {
        let acc2 = acc * 128 + (s[pos] % 128) as nat;
        assert(acc2 < group_cap(count + 1)) by (nonlinear_arith)
            requires
                acc2 == acc * 128 + (s[pos] % 128) as nat,
                acc < group_cap(count),
                count < 4,
                group_cap(count + 1) == group_cap(count) * 128,
        ;
        lemma_vlq_read_bound(s, pos + 1, acc2, count + 1);
    }
}

/// Reads a variable-length quantity at `pos`.
pub fn read_vlq(s: &[u8], pos: usize) -> (r: Result<(u32, usize), MidiError>)
    ensures
        r matches Ok((v, p)) ==> vlq_parse(s@, pos as int) == Ok::<(nat, int), MidiError>(
            (v as nat, p as int),
        ),
        r matches Err(e) ==> vlq_parse(s@, pos as int) == Err::<(nat, int), MidiError>(e),
        vlq_parse(s@, pos as int) matches Ok((v, p)) ==> v <= VLQ_MAX && pos < p <= s@.len(),
{
    proof {
        lemma_vlq_read_bound(s@, pos as int, 0, 0);
    }
    let mut acc: u32 = 0;
    let mut count: usize = 0;
    let mut p: usize = pos;
    while count < 4
        invariant
            count <= 4,
            p == pos + count,
            (acc as nat) < group_cap(count as nat),
            vlq_parse(s@, pos as int) == vlq_read(s@, p as int, acc as nat, count as nat),
        decreases 4 - count,
    {
        if p >= s.len() {
            return Err(MidiError::Parse(ParseError::UnexpectedEOF));
        }
        let b = s[p];
        proof {
            let c1 = (count + 1) as nat;
            assert((acc as nat) * 128 + ((b % 128) as nat) < group_cap(c1)) by (nonlinear_arith)
                requires
                    (acc as nat) < group_cap(count as nat),
                    count < 4,
                    c1 == count + 1,
                    group_cap(c1) == group_cap(count as nat) * 128,
            ;
        }
        acc = acc * 128 + (b % 128) as u32;
        if b < 128 {
            return Ok((acc, p + 1));
        }
        p = p + 1;
        count = count + 1;
    }
    Err(MidiError::Parse(ParseError::BadVLQ))
}

fn read_meta(t: u8, d: &[u8]) -> (r: Result<MetaPayload, MidiError>)
    ensures
        r matches Ok(m) ==> parse_meta(t, d@) == Ok::<MetaModel, MidiError>(m@),
        r matches Err(e) ==> parse_meta(t, d@) == Err::<MetaModel, MidiError>(e),
{
    if t == 0x58 && d.len() == 4 {
        Ok(MetaPayload::TimeSignature(d[0], d[1], d[2], d[3]))
    } else if t == 0x59 && d.len() == 2 && d[1] < 2 {
        let s: i8 = if d[0] >= 128 { (d[0] as i16 - 256) as i8 } else { d[0] as i8 };
        Ok(MetaPayload::KeySignature(s, d[1] == 1))
    } else if t == 0x51 && d.len() == 3 {
        Ok(MetaPayload::Tempo(d[0] as u32 * 0x1_0000 + d[1] as u32 * 256 + d[2] as u32))
    } else if t == 0x03 {
        Ok(MetaPayload::TrackName(slice_to_vec(d)))
    } else if t == 0x2F && d.len() == 0 {
        Ok(MetaPayload::EndOfTrack)
    } else {
        Err(MidiError::MalformedMessage)
    }
}

fn read_event(c: &[u8], pos: usize) -> (r: Result<(TrackEvent, usize), MidiError>)
    ensures
        r matches Ok((e, p)) ==> parse_event(c@, pos as int) == Ok::<(EventModel, int), MidiError>(
            (e@, p as int),
        ),
        r matches Err(e) ==> parse_event(c@, pos as int) == Err::<(EventModel, int), MidiError>(e),
{
    let (d, at_body) = read_vlq(c, pos)?;
    if at_body >= c.len() {
        return Err(MidiError::Parse(ParseError::UnexpectedEOF));
    }
    let st = c[at_body];
    if st == 0xFF {
        if at_body + 1 >= c.len() {
            return Err(MidiError::Parse(ParseError::UnexpectedEOF));
        }
        let (n, at_data) = read_vlq(c, at_body + 2)?;
        if n as usize > c.len() - at_data {
            return Err(MidiError::Parse(ParseError::UnexpectedEOF));
        }
        let m = read_meta(c[at_body + 1], slice_subrange(c, at_data, at_data + n as usize))?;
        Ok((TrackEvent { delta: d, kind: TrackEventKind::Meta(m) }, at_data + n as usize))
    } else if 0x80 <= st && st <= 0xEF {
        let k: usize = if st >= 0xC0 && st < 0xE0 { 1 } else { 2 };
        if k > c.len() - 1 - at_body {
            return Err(MidiError::Parse(ParseError::UnexpectedEOF));
        }
        if c[at_body + 1] >= 128 || (k == 2 && c[at_body + 2] >= 128) {
            return Err(MidiError::MalformedMessage);
        }
        let a = c[at_body + 1];
        let b = if k == 2 { c[at_body + 2] } else { 0 };
        let hi = st / 16;
        let message = if hi == 0x8 {
            ChannelMessage::NoteOff { key: a, vel: b }
        } else if hi == 0x9 {
            ChannelMessage::NoteOn { key: a, vel: b }
        } else if hi == 0xA {
            ChannelMessage::Aftertouch { key: a, vel: b }
        } else if hi == 0xB {
            ChannelMessage::Controller { controller: a, value: b }
        } else if hi == 0xC {
            ChannelMessage::ProgramChange { program: a }
        } else if hi == 0xD {
            ChannelMessage::ChannelAftertouch { vel: a }
        } else {
            ChannelMessage::PitchBend { bend: b as u16 * 128 + a as u16 }
        };
        let kind = TrackEventKind::Midi { channel: st % 16, message };
        Ok((TrackEvent { delta: d, kind }, at_body + 1 + k))
    } else {
        Err(MidiError::MalformedMessage)
    }
}

fn is_end(e: &TrackEvent) -> (r: bool)
    ensures
        r == is_end_of_track(e@),
{
    match &e.kind {
        TrackEventKind::Meta(MetaPayload::EndOfTrack) => true,
        _ => false,
    }
}

/// Reads the events of a track chunk's contents.
fn read_events(c: &[u8]) -> (r: Result<Track, MidiError>)
    ensures
        r matches Ok(t) ==> parse_events(c@, 0, seq![]) == Ok::<Seq<EventModel>, MidiError>(t@),
        r matches Err(e) ==> parse_events(c@, 0, seq![]) == Err::<Seq<EventModel>, MidiError>(e),
{
    let mut out: Vec<TrackEvent> = Vec::new();
    let mut pos: usize = 0;
    assert(out@.map_values(|e: TrackEvent| e@) =~= Seq::<EventModel>::empty());
    loop
        invariant
            pos <= c.len(),
            parse_events(c@, 0, seq![]) == parse_events(
                c@,
                pos as int,
                out@.map_values(|e: TrackEvent| e@),
            ),
        decreases c.len() - pos,
    {
        if pos >= c.len() {
            return Err(MidiError::Parse(ParseError::MissingEndOfTrack));
        }
        let (e, p) = read_event(c, pos)?;
        if p <= pos || p > c.len() {
            return Err(MidiError::Parse(ParseError::UnexpectedEOF));
        }
        let ghost before = out@.map_values(|e: TrackEvent| e@);
        let end = is_end(&e);
        out.push(e);
        assert(out@.map_values(|e: TrackEvent| e@) =~= before.push(e@));
        if end {
            if p == c.len() {
                return Ok(Track { events: out });
            }
            return Err(MidiError::Parse(ParseError::LengthMismatch));
        }
        pos = p;
    }
}

/// Decodes a Standard MIDI File. Fails on the first problem met: a bad or
/// short header, a header length other than six, a track count that differs
/// from the number of track chunks, a truncated chunk, an overlong variable
/// length quantity, an event body that is not understood, or a track that
/// does not end with exactly one `EndOfTrack`.
pub fn decode(s: &[u8]) -> (r: Result<SmfFile, MidiError>)
    ensures
        r matches Ok(f) ==> parse_file(s@) == Ok::<FileModel, MidiError>(f@),
        r matches Err(e) ==> parse_file(s@) == Err::<FileModel, MidiError>(e),
{
    if s.len() < 14 {
        return Err(MidiError::Parse(ParseError::UnexpectedEOF));
    }
    if !(s[0] == 0x4D && s[1] == 0x54 && s[2] == 0x68 && s[3] == 0x64) {
        assert(s@.subrange(0, 4)[0] == s@[0]);
        assert(s@.subrange(0, 4)[1] == s@[1]);
        assert(s@.subrange(0, 4)[2] == s@[2]);
        assert(s@.subrange(0, 4)[3] == s@[3]);
        return Err(MidiError::Parse(ParseError::BadChunkTag));
    }
    assert(s@.subrange(0, 4) =~= header_tag());
    if !(s[4] == 0 && s[5] == 0 && s[6] == 0 && s[7] == 6) {
        return Err(MidiError::Parse(ParseError::LengthMismatch));
    }
    let fc = s[8] as u16 * 256 + s[9] as u16;
    let count = s[10] as u16 * 256 + s[11] as u16;
    let division = s[12] as u16 * 256 + s[13] as u16;
    if fc > 2 || division >= 0x8000 {
        return Err(MidiError::Parse(ParseError::BadChunkTag));
    }
    let format = if fc == 0 {
        Format::SingleTrack
    } else if fc == 1 {
        Format::Parallel
    } else {
        Format::Sequential
    };
    assert(be16_at(s@, 8) == fc as nat);
    assert(be16_at(s@, 10) == count as nat);
    assert(be16_at(s@, 12) == division as nat);
    assert(be32_at(s@, 4) == 6);
    let mut tracks: Vec<Track> = Vec::new();
    let mut pos: usize = 14;
    let mut remaining: u16 = count;
    assert(tracks@.map_values(|t: Track| t@) =~= Seq::<Seq<EventModel>>::empty());
    while remaining > 0
        invariant
            14 <= pos <= s.len(),
            s@.len() >= 14,
            be16_at(s@, 10) == count as nat,
            parse_file(s@) == match parse_tracks(s@, 14, count as nat, seq![]) {
                Err(e) => Err(e),
                Ok(ts) => Ok(
                    FileModel { format: format_of(fc as nat), division: division as u16, tracks: ts },
                ),
            },
            parse_tracks(s@, 14, count as nat, seq![]) == parse_tracks(
                s@,
                pos as int,
                remaining as nat,
                tracks@.map_values(|t: Track| t@),
            ),
        decreases remaining,
    {
        if pos == s.len() {
            return Err(MidiError::Parse(ParseError::LengthMismatch));
        }
        if s.len() - pos < 8 {
            return Err(MidiError::Parse(ParseError::UnexpectedEOF));
        }
        if !(s[pos] == 0x4D && s[pos + 1] == 0x54 && s[pos + 2] == 0x72 && s[pos + 3] == 0x6B) {
            assert(s@.subrange(pos as int, pos + 4)[0] == s@[pos as int]);
            assert(s@.subrange(pos as int, pos + 4)[1] == s@[pos + 1]);
            assert(s@.subrange(pos as int, pos + 4)[2] == s@[pos + 2]);
            assert(s@.subrange(pos as int, pos + 4)[3] == s@[pos + 3]);
            return Err(MidiError::Parse(ParseError::BadChunkTag));
        }
        assert(s@.subrange(pos as int, pos + 4) =~= track_tag());
        let len = ((s[pos + 4] as u64 * 256 + s[pos + 5] as u64) * 256 + s[pos + 6] as u64) * 256
            + s[pos + 7] as u64;
        assert(be32_at(s@, pos + 4) == len as nat);
        if len > (s.len() - pos - 8) as u64 {
            return Err(MidiError::Parse(ParseError::UnexpectedEOF));
        }
        let end = pos + 8 + len as usize;
        let t = read_events(slice_subrange(s, pos + 8, end))?;
        let ghost before = tracks@.map_values(|t: Track| t@);
        let ghost tv = t@;
        tracks.push(t);
        assert(tracks@.map_values(|t: Track| t@) =~= before.push(tv));
        pos = end;
        remaining = remaining - 1;
    }
    if pos != s.len() {
        return Err(MidiError::Parse(ParseError::LengthMismatch));
    }
    Ok(SmfFile { header: Header { format, division }, tracks })
}

} // verus!
