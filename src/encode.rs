use vstd::prelude::*;

use crate::error::MidiError;
use crate::smf::{
    be16, be32, enc_event, enc_events, enc_file, enc_header, enc_track, enc_tracks, event_wf,
    file_wf, format_code, is_end_of_track, message_wf, meta_body, meta_data, midi_body, track_wf,
    Format, MetaModel, MetaPayload, SmfFile, Track, TrackEvent, TrackEventKind,
};
use crate::vlq::{write_vlq, VLQ_MAX};
use crate::wire::ChannelMessage;

verus! {

fn push_be16(out: &mut Vec<u8>, n: u16)
    ensures
        final(out)@ == old(out)@ + be16(n as nat),
{
    out.push((n / 256) as u8);
    out.push((n % 256) as u8);
    assert(final(out)@ =~= old(out)@ + be16(n as nat));
}

fn push_be32(out: &mut Vec<u8>, n: u32)
    ensures
        final(out)@ == old(out)@ + be32(n as nat),
{
    out.push((n / 0x100_0000) as u8);
    out.push((n / 0x1_0000 % 256) as u8);
    out.push((n / 256 % 256) as u8);
    out.push((n % 256) as u8);
    assert(final(out)@ =~= old(out)@ + be32(n as nat));
}

fn push_bytes(out: &mut Vec<u8>, b: &Vec<u8>)
    ensures
        final(out)@ == old(out)@ + b@,
{
    let mut i: usize = 0;
    while i < b.len()
        invariant
            i <= b.len(),
            out@ == old(out)@ + b@.take(i as int),
        decreases b.len() - i,
    {
        out.push(b[i]);
        i += 1;
        assert(out@ =~= old(out)@ + b@.take(i as int));
    }
    assert(b@.take(i as int) =~= b@);
}

fn message_ok(m: &ChannelMessage) -> (r: bool)
    ensures
        r == message_wf(*m),
{
    match *m {
        ChannelMessage::NoteOff { key, vel } => key < 128 && vel < 128,
        ChannelMessage::NoteOn { key, vel } => key < 128 && vel < 128,
        ChannelMessage::Aftertouch { key, vel } => key < 128 && vel < 128,
        ChannelMessage::Controller { controller, value } => controller < 128 && value < 128,
        ChannelMessage::ProgramChange { program } => program < 128,
        ChannelMessage::ChannelAftertouch { vel } => vel < 128,
        ChannelMessage::PitchBend { bend } => bend < 0x4000,
    }
}

fn event_ok(e: &TrackEvent) -> (r: bool)
    ensures
        r == event_wf(e@),
{
    e.delta <= VLQ_MAX && match &e.kind {
        TrackEventKind::Midi { channel, message } => *channel < 16 && message_ok(message),
        TrackEventKind::Meta(MetaPayload::Tempo(t)) => *t < 0x100_0000,
        TrackEventKind::Meta(MetaPayload::TrackName(n)) => n.len() <= VLQ_MAX as usize,
        TrackEventKind::Meta(_) => true,
    }
}

fn is_end(e: &TrackEvent) -> (r: bool)
    ensures
        r == is_end_of_track(e@),
{
    match &e.kind {
        TrackEventKind::Meta(MetaPayload::EndOfTrack) => true,
        _ => false,
    }
}

fn write_midi(out: &mut Vec<u8>, channel: u8, m: &ChannelMessage)
    ensures
        final(out)@ == old(out)@ + midi_body(channel, *m),
{
    let (nibble, a, b): (u8, u8, u8) = match *m {
        ChannelMessage::NoteOff { key, vel } => (0x8, key, vel),
        ChannelMessage::NoteOn { key, vel } => (0x9, key, vel),
        ChannelMessage::Aftertouch { key, vel } => (0xA, key, vel),
        ChannelMessage::Controller { controller, value } => (0xB, controller, value),
        ChannelMessage::ProgramChange { program } => (0xC, program, 0),
        ChannelMessage::ChannelAftertouch { vel } => (0xD, vel, 0),
        ChannelMessage::PitchBend { bend } => (0xE, (bend % 128) as u8, (bend / 128 % 128) as u8),
    };
    out.push(nibble * 16 + channel % 16);
    out.push(a % 128);
    if nibble != 0xC && nibble != 0xD {
        out.push(b % 128);
    }
    assert(final(out)@ =~= old(out)@ + midi_body(channel, *m));
}

fn write_meta(out: &mut Vec<u8>, m: &MetaPayload)
    requires
        m@ matches MetaModel::Tempo(t) ==> t < 0x100_0000,
        m@ matches MetaModel::TrackName(n) ==> n.len() <= VLQ_MAX,
    ensures
        final(out)@ == old(out)@ + meta_body(m@),
{
    let ghost start = out@;
    out.push(0xFF);
    match m {
        MetaPayload::TimeSignature(a, b, c, d) => {
            out.push(0x58);
            write_vlq(out, 4);
            out.push(*a);
            out.push(*b);
            out.push(*c);
            out.push(*d);
        },
        MetaPayload::KeySignature(s, minor) => {
            out.push(0x59);
            write_vlq(out, 2);
            out.push(if *s < 0 { (*s as i16 + 256) as u8 } else { *s as u8 });
            out.push(if *minor { 1 } else { 0 });
        },
        MetaPayload::Tempo(t) => {
            out.push(0x51);
            write_vlq(out, 3);
            out.push((*t / 0x1_0000 % 256) as u8);
            out.push((*t / 256 % 256) as u8);
            out.push((*t % 256) as u8);
        },
        MetaPayload::TrackName(n) => {
            out.push(0x03);
            write_vlq(out, n.len() as u32);
            push_bytes(out, n);
        },
        MetaPayload::EndOfTrack => {
            out.push(0x2F);
            write_vlq(out, 0);
        },
    }
    assert(meta_data(m@).len() == match m@ {
        MetaModel::TimeSignature(..) => 4nat,
        MetaModel::KeySignature(..) => 2,
        MetaModel::Tempo(..) => 3,
        MetaModel::TrackName(n) => n.len(),
        MetaModel::EndOfTrack => 0,
    });
    assert(final(out)@ =~= start + meta_body(m@));
}

fn write_event(out: &mut Vec<u8>, e: &TrackEvent)
    requires
        event_wf(e@),
    ensures
        final(out)@ == old(out)@ + enc_event(e@),
{
    let ghost start = out@;
    write_vlq(out, e.delta);
    let ghost mid = out@;
    match &e.kind {
        TrackEventKind::Midi { channel, message } => write_midi(out, *channel, message),
        TrackEventKind::Meta(p) => write_meta(out, p),
    }
    assert(final(out)@ =~= start + enc_event(e@));
}

/// Encodes the events of a track, or fails with `EncodeError` where the
/// track is not well formed.
pub fn encode_events(t: &Track) -> (r: Result<Vec<u8>, MidiError>)
    ensures
        r is Ok <==> track_wf(t@),
        r matches Ok(v) ==> v@ == enc_events(t@),
        r matches Err(e) ==> e == MidiError::EncodeError,
{
    let n = t.events.len();
    if n == 0 {
        return Err(MidiError::EncodeError);
    }
    let mut out: Vec<u8> = Vec::new();
    let mut i: usize = 0;
    while i < n
        invariant
            n == t.events.len(),
            i <= n,
            t@.len() == n,
            out@ == enc_events(t@.take(i as int)),
            forall|j: int| 0 <= j < i ==> event_wf(#[trigger] t@[j]),
            forall|j: int| 0 <= j < i && j < n - 1 ==> !is_end_of_track(#[trigger] t@[j]),
        decreases n - i,
    {
        let e = &t.events[i];
        assert(t@[i as int] == e@);
        if !event_ok(e) || (i + 1 < n && is_end(e)) {
            assert(!event_wf(t@[i as int]) || is_end_of_track(t@[i as int]));
            return Err(MidiError::EncodeError);
        }
        write_event(&mut out, e);
        i += 1;
        assert(t@.take(i as int).drop_last() =~= t@.take(i - 1));
    }
    assert(t@.take(n as int) =~= t@);
    if !is_end(&t.events[n - 1]) || out.len() as u64 >= 0x1_0000_0000 {
        return Err(MidiError::EncodeError);
    }
    Ok(out)
}

fn push_track(out: &mut Vec<u8>, t: &Track) -> (r: Result<(), MidiError>)
    ensures
        r is Ok <==> track_wf(t@),
        r is Ok ==> final(out)@ == old(out)@ + enc_track(t@),
        r matches Err(e) ==> e == MidiError::EncodeError,
{
    let body = encode_events(t)?;
    let ghost before = out@;
    out.push(0x4D);
    out.push(0x54);
    out.push(0x72);
    out.push(0x6B);
    push_be32(out, body.len() as u32);
    push_bytes(out, &body);
    assert(final(out)@ =~= before + enc_track(t@));
    Ok(())
}

fn format_number(f: Format) -> (r: u16)
    ensures
        r as nat == format_code(f),
{
    match f {
        Format::SingleTrack => 0,
        Format::Parallel => 1,
        Format::Sequential => 2,
    }
}

/// Encodes a file: a header chunk whose track count is the number of
/// tracks, then one track chunk per track, in order. Fails with
/// `EncodeError` exactly when the file is not well formed.
pub fn encode(f: &SmfFile) -> (r: Result<Vec<u8>, MidiError>)
    ensures
        r is Ok <==> file_wf(f@),
        r matches Ok(v) ==> v@ == enc_file(f@),
        r matches Err(e) ==> e == MidiError::EncodeError,
{
    let n = f.tracks.len();
    if f.header.division >= 0x8000 || n >= 0x1_0000 {
        return Err(MidiError::EncodeError);
    }
    let mut out: Vec<u8> = Vec::new();
    out.push(0x4D);
    out.push(0x54);
    out.push(0x68);
    out.push(0x64);
    push_be32(&mut out, 6);
    push_be16(&mut out, format_number(f.header.format));
    push_be16(&mut out, n as u16);
    push_be16(&mut out, f.header.division);
    let ghost head = out@;
    assert(head =~= enc_header(f@));
    let mut i: usize = 0;
    while i < n
        invariant
            n == f.tracks.len(),
            i <= n,
            f@.tracks.len() == n,
            head == enc_header(f@),
            out@ == head + enc_tracks(f@.tracks.take(i as int)),
            forall|j: int| 0 <= j < i ==> track_wf(#[trigger] f@.tracks[j]),
        decreases n - i,
    {
        let t = &f.tracks[i];
        assert(f@.tracks[i as int] == t@);
        let ghost before = out@;
        match push_track(&mut out, t) {
            Ok(()) => {
                i += 1;
                assert(f@.tracks.take(i as int).drop_last() =~= f@.tracks.take(i - 1));
                assert(out@ =~= head + enc_tracks(f@.tracks.take(i as int)));
            },
            Err(e) => {
                return Err(e);
            },
        }
    }
    assert(f@.tracks.take(n as int) =~= f@.tracks);
    Ok(out)
}

} // verus!
