use midi_stats::builder::{build_smf, meta_track, setup_events, CaptureConfig, DecodePolicy, TimedEvent};
use midi_stats::encode::encode;
use midi_stats::error::{MidiError, ParseError};
use midi_stats::quantize::quantize;
use midi_stats::reader::decode;
use midi_stats::smf::{Format, MetaPayload, SmfFile, Track, TrackEvent, TrackEventKind};
use midi_stats::text::format_message;
use midi_stats::wire::{decode_wire, ChannelMessage, WireMessage};

fn config(policy: DecodePolicy) -> CaptureConfig {
    CaptureConfig { ticks_per_quarter: 480, bpm: 80, policy }
}

fn timed(ts: u64, bytes: &[u8]) -> TimedEvent {
    TimedEvent { timestamp_ms: ts, message: bytes.to_vec() }
}

fn note_on(delta: u32, key: u8, vel: u8) -> TrackEvent {
    TrackEvent {
        delta,
        kind: TrackEventKind::Midi { channel: 0, message: ChannelMessage::NoteOn { key, vel } },
    }
}

fn end(delta: u32) -> TrackEvent {
    TrackEvent { delta, kind: TrackEventKind::Meta(MetaPayload::EndOfTrack) }
}

#[test]
fn two_note_ons_at_480_ticks_80_bpm() {
    let events = vec![timed(0, &[0x90, 60, 100]), timed(500, &[0x90, 64, 90])];
    let f = build_smf(&events, &config(DecodePolicy::Strict)).unwrap();
    assert_eq!(f.tracks.len(), 2);
    let notes = &f.tracks[1].events;
    assert_eq!(notes.len(), 4 + 2 + 1);
    assert_eq!(notes[4], note_on(0, 60, 100));
    assert_eq!(notes[5], note_on(320, 64, 90));
    assert_eq!(notes[6], end(1));
}

#[test]
fn empty_capture_gives_setup_and_end() {
    let f = build_smf(&vec![], &config(DecodePolicy::Strict)).unwrap();
    assert_eq!(f.tracks.len(), 2);
    let mut expected = setup_events();
    expected.push(end(1));
    assert_eq!(f.tracks[1].events, expected);
    assert_eq!(f.tracks[0], meta_track(750_000));
    assert_eq!(f.header.format, Format::Parallel);
    assert_eq!(f.header.division, 480);
}

#[test]
fn overflowed_data_byte_is_malformed() {
    assert_eq!(decode_wire(&[0x90, 0x80]), Err(MidiError::MalformedMessage));
}

#[test]
fn track_count_larger_than_chunks() {
    let mut bytes = vec![0x4D, 0x54, 0x68, 0x64, 0, 0, 0, 6, 0, 1, 0, 3, 0x01, 0xE0];
    for _ in 0..2 {
        bytes.extend_from_slice(&[0x4D, 0x54, 0x72, 0x6B, 0, 0, 0, 4, 0x00, 0xFF, 0x2F, 0x00]);
    }
    assert_eq!(decode(&bytes), Err(MidiError::Parse(ParseError::LengthMismatch)));
}

#[test]
fn meta_track_table() {
    let t = meta_track(750_000);
    assert_eq!(
        t.events.iter().map(|e| e.kind.clone()).collect::<Vec<_>>(),
        vec![
            TrackEventKind::Meta(MetaPayload::TimeSignature(3, 4, 24, 8)),
            TrackEventKind::Meta(MetaPayload::KeySignature(0, false)),
            TrackEventKind::Meta(MetaPayload::Tempo(750_000)),
            TrackEventKind::Meta(MetaPayload::EndOfTrack),
        ]
    );
    assert!(t.events.iter().all(|e| e.delta == 0));
}

#[test]
fn setup_table() {
    let s = setup_events();
    assert_eq!(s.len(), 4);
    assert_eq!(
        s[1].kind,
        TrackEventKind::Midi { channel: 0, message: ChannelMessage::Controller { controller: 37, value: 0 } }
    );
    assert_eq!(s[2].kind, TrackEventKind::Midi { channel: 0, message: ChannelMessage::ProgramChange { program: 0 } });
    assert_eq!(s[3].kind, TrackEventKind::Meta(MetaPayload::TrackName(b"My Test".to_vec())));
}

#[test]
fn other_messages_are_dropped() {
    let events = vec![
        timed(0, &[0x90, 60, 100]),
        timed(250, &[0x80, 60, 0]),
        timed(500, &[0xB0, 7, 100]),
        timed(1000, &[0x91, 62, 80]),
    ];
    let f = build_smf(&events, &config(DecodePolicy::Strict)).unwrap();
    let notes = &f.tracks[1].events;
    assert_eq!(notes.len(), 4 + 2 + 1);
    assert_eq!(notes[4], note_on(0, 60, 100));
    assert_eq!(
        notes[5],
        TrackEvent {
            delta: 640,
            kind: TrackEventKind::Midi { channel: 1, message: ChannelMessage::NoteOn { key: 62, vel: 80 } }
        }
    );
}

#[test]
fn strict_policy_rejects_bad_message() {
    let events = vec![timed(0, &[0x90, 60, 100]), timed(10, &[0x90, 0x80])];
    assert_eq!(build_smf(&events, &config(DecodePolicy::Strict)), Err(MidiError::InvalidEventStream));
}

#[test]
fn lenient_policy_skips_bad_message() {
    let events = vec![timed(0, &[0x90, 60, 100]), timed(10, &[0x90, 0x80]), timed(500, &[0x90, 64, 90])];
    let f = build_smf(&events, &config(DecodePolicy::Lenient)).unwrap();
    let notes = &f.tracks[1].events;
    assert_eq!(notes.len(), 7);
    assert_eq!(notes[5], note_on(320, 64, 90));
}

#[test]
fn tempo_out_of_range_is_encode_error() {
    let c = CaptureConfig { ticks_per_quarter: 480, bpm: 3, policy: DecodePolicy::Strict };
    assert_eq!(build_smf(&vec![], &c), Err(MidiError::EncodeError));
    let c = CaptureConfig { ticks_per_quarter: 0x8000, bpm: 80, policy: DecodePolicy::Strict };
    assert_eq!(build_smf(&vec![], &c), Err(MidiError::EncodeError));
}

#[test]
fn huge_gap_is_encode_error() {
    let events = vec![timed(u64::MAX / 2, &[0x90, 60, 100])];
    assert_eq!(build_smf(&events, &config(DecodePolicy::Strict)), Err(MidiError::EncodeError));
}

#[test]
fn quantize_rounds_each_interval() {
    assert_eq!(quantize(&vec![0, 500], 480, 80), vec![0, 320]);
    assert_eq!(quantize(&vec![500, 1000], 1, 60), vec![1, 1]);
    assert_eq!(quantize(&vec![100, 100, 50], 480, 120), vec![96, 0, 0]);
    assert_eq!(quantize(&vec![], 480, 120), Vec::<u128>::new());
}

#[test]
fn quantized_sum_stays_close_to_absolute_time() {
    let ts: Vec<u64> = vec![3, 17, 17, 250, 251, 999, 1500];
    let d = quantize(&ts, 96, 133);
    let mpb = 60_000_000u128 / 133;
    let mut sum: u128 = 0;
    for (i, t) in ts.iter().enumerate() {
        sum += d[i];
        let exact2 = 2000 * 96 * (*t as u128);
        let got2 = 2 * mpb * sum;
        let err = if got2 > exact2 { got2 - exact2 } else { exact2 - got2 };
        assert!(err <= (i as u128 + 1) * mpb);
    }
}

#[test]
fn format_message_renders_nibbles_and_data() {
    assert_eq!(format_message(&[0x90, 60, 100]), "1001 0000 60 100 ");
    assert_eq!(format_message(&[0xC5, 7]), "1100 0101 7 ");
    assert_eq!(format_message(&[0xF8]), "");
    assert_eq!(format_message(&[]), "");
}

#[test]
fn wire_decoding_of_each_kind() {
    let w = |channel, message| Ok(WireMessage { channel, message });
    assert_eq!(decode_wire(&[0x83, 60, 0]), w(3, ChannelMessage::NoteOff { key: 60, vel: 0 }));
    assert_eq!(decode_wire(&[0x9F, 1, 2]), w(15, ChannelMessage::NoteOn { key: 1, vel: 2 }));
    assert_eq!(decode_wire(&[0xA0, 5, 6]), w(0, ChannelMessage::Aftertouch { key: 5, vel: 6 }));
    assert_eq!(decode_wire(&[0xB2, 7, 127]), w(2, ChannelMessage::Controller { controller: 7, value: 127 }));
    assert_eq!(decode_wire(&[0xC3, 5]), w(3, ChannelMessage::ProgramChange { program: 5 }));
    assert_eq!(decode_wire(&[0xD4, 9]), w(4, ChannelMessage::ChannelAftertouch { vel: 9 }));
    assert_eq!(decode_wire(&[0xE0, 0x01, 0x40]), w(0, ChannelMessage::PitchBend { bend: 0x2001 }));
}

#[test]
fn wire_decoding_rejects_bad_shapes() {
    assert_eq!(decode_wire(&[]), Err(MidiError::MalformedMessage));
    assert_eq!(decode_wire(&[0x90, 60]), Err(MidiError::MalformedMessage));
    assert_eq!(decode_wire(&[0x90, 60, 100, 1]), Err(MidiError::MalformedMessage));
    assert_eq!(decode_wire(&[0xC0, 1, 2]), Err(MidiError::MalformedMessage));
    assert_eq!(decode_wire(&[0xF8]), Err(MidiError::MalformedMessage));
    assert_eq!(decode_wire(&[0xF0, 1, 0xF7]), Err(MidiError::MalformedMessage));
    assert_eq!(decode_wire(&[0x40, 1, 2]), Err(MidiError::MalformedMessage));
}

fn single_track(events: Vec<TrackEvent>) -> SmfFile {
    SmfFile {
        header: midi_stats::smf::Header { format: Format::SingleTrack, division: 96 },
        tracks: vec![Track { events }],
    }
}

#[test]
fn encode_exact_bytes() {
    let f = single_track(vec![note_on(0x80, 60, 100), end(0)]);
    assert_eq!(
        encode(&f).unwrap(),
        vec![
            0x4D, 0x54, 0x68, 0x64, 0, 0, 0, 6, 0, 0, 0, 1, 0, 96, //
            0x4D, 0x54, 0x72, 0x6B, 0, 0, 0, 9, //
            0x81, 0x00, 0x90, 60, 100, 0x00, 0xFF, 0x2F, 0x00,
        ]
    );
}

#[test]
fn encode_meta_events() {
    let f = single_track(vec![
        TrackEvent { delta: 0, kind: TrackEventKind::Meta(MetaPayload::Tempo(750_000)) },
        TrackEvent { delta: 0, kind: TrackEventKind::Meta(MetaPayload::KeySignature(-3, true)) },
        TrackEvent { delta: 0, kind: TrackEventKind::Meta(MetaPayload::TrackName(b"ab".to_vec())) },
        end(0),
    ]);
    let bytes = encode(&f).unwrap();
    assert_eq!(
        bytes[22..],
        [
            0x00, 0xFF, 0x51, 0x03, 0x0B, 0x71, 0xB0, //
            0x00, 0xFF, 0x59, 0x02, 0xFD, 0x01, //
            0x00, 0xFF, 0x03, 0x02, b'a', b'b', //
            0x00, 0xFF, 0x2F, 0x00,
        ]
    );
    assert_eq!(decode(&bytes), Ok(f));
}

#[test]
fn encode_rejects_bad_tracks() {
    assert_eq!(encode(&single_track(vec![note_on(0, 60, 100)])), Err(MidiError::EncodeError));
    assert_eq!(encode(&single_track(vec![end(0), end(0)])), Err(MidiError::EncodeError));
    assert_eq!(encode(&single_track(vec![])), Err(MidiError::EncodeError));
    let bad_channel = TrackEvent {
        delta: 0,
        kind: TrackEventKind::Midi { channel: 16, message: ChannelMessage::NoteOn { key: 1, vel: 1 } },
    };
    assert_eq!(encode(&single_track(vec![bad_channel, end(0)])), Err(MidiError::EncodeError));
    assert_eq!(encode(&single_track(vec![note_on(0x1000_0000, 1, 1), end(0)])), Err(MidiError::EncodeError));
}

#[test]
fn round_trip_of_built_file() {
    let events = vec![timed(0, &[0x90, 60, 100]), timed(500, &[0x90, 64, 90]), timed(90_000, &[0x9A, 1, 1])];
    let f = build_smf(&events, &config(DecodePolicy::Strict)).unwrap();
    let bytes = encode(&f).unwrap();
    assert_eq!(&bytes[10..12], &[0, 2]);
    assert_eq!(decode(&bytes), Ok(f));
}

#[test]
fn round_trip_of_every_channel_message() {
    let msgs = vec![
        ChannelMessage::NoteOff { key: 1, vel: 2 },
        ChannelMessage::Aftertouch { key: 3, vel: 4 },
        ChannelMessage::Controller { controller: 5, value: 6 },
        ChannelMessage::ProgramChange { program: 7 },
        ChannelMessage::ChannelAftertouch { vel: 8 },
        ChannelMessage::PitchBend { bend: 0x3FFF },
    ];
    let mut events: Vec<TrackEvent> = msgs
        .into_iter()
        .enumerate()
        .map(|(i, message)| TrackEvent {
            delta: 0x0FFF_FFFF - i as u32,
            kind: TrackEventKind::Midi { channel: i as u8, message },
        })
        .collect();
    events.push(TrackEvent { delta: 0, kind: TrackEventKind::Meta(MetaPayload::TimeSignature(6, 3, 24, 8)) });
    events.push(end(5));
    let f = SmfFile {
        header: midi_stats::smf::Header { format: Format::Sequential, division: 0x7FFF },
        tracks: vec![Track { events: vec![end(0)] }, Track { events }],
    };
    assert_eq!(decode(&encode(&f).unwrap()), Ok(f));
}

#[test]
fn decode_errors() {
    let good = encode(&single_track(vec![end(0)])).unwrap();
    assert_eq!(decode(&good[..10]), Err(MidiError::Parse(ParseError::UnexpectedEOF)));
    let mut tag = good.clone();
    tag[0] = b'X';
    assert_eq!(decode(&tag), Err(MidiError::Parse(ParseError::BadChunkTag)));
    let mut hlen = good.clone();
    hlen[7] = 7;
    assert_eq!(decode(&hlen), Err(MidiError::Parse(ParseError::LengthMismatch)));
    let mut ttag = good.clone();
    ttag[14] = b'X';
    assert_eq!(decode(&ttag), Err(MidiError::Parse(ParseError::BadChunkTag)));
    assert_eq!(decode(&good[..good.len() - 1]), Err(MidiError::Parse(ParseError::UnexpectedEOF)));
    let mut extra = good.clone();
    extra.push(0);
    assert_eq!(decode(&extra), Err(MidiError::Parse(ParseError::LengthMismatch)));
    let mut no_end = good[..14].to_vec();
    no_end.extend_from_slice(&[0x4D, 0x54, 0x72, 0x6B, 0, 0, 0, 4, 0x00, 0x90, 60, 100]);
    assert_eq!(decode(&no_end), Err(MidiError::Parse(ParseError::MissingEndOfTrack)));
    let mut long_vlq = good[..14].to_vec();
    long_vlq.extend_from_slice(&[0x4D, 0x54, 0x72, 0x6B, 0, 0, 0, 8, 0x81, 0x81, 0x81, 0x81, 0x00, 0xFF, 0x2F, 0x00]);
    assert_eq!(decode(&long_vlq), Err(MidiError::Parse(ParseError::BadVLQ)));
    let mut after_end = good[..14].to_vec();
    after_end.extend_from_slice(&[0x4D, 0x54, 0x72, 0x6B, 0, 0, 0, 8, 0x00, 0xFF, 0x2F, 0x00, 0x00, 0xFF, 0x2F, 0x00]);
    assert_eq!(decode(&after_end), Err(MidiError::Parse(ParseError::LengthMismatch)));
    let mut running = good[..14].to_vec();
    running.extend_from_slice(&[0x4D, 0x54, 0x72, 0x6B, 0, 0, 0, 7, 0x00, 60, 100, 0x00, 0xFF, 0x2F, 0x00]);
    assert_eq!(decode(&running), Err(MidiError::MalformedMessage));
}
