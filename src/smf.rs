use vstd::prelude::*;

use crate::vlq::{vlq, VLQ_MAX};
use crate::wire::ChannelMessage;

verus! {

/// The meta events this library writes and reads.
#[derive(Clone, Debug, PartialEq, Eq)]
pub enum MetaPayload {
    /// Numerator, denominator as a power of two, MIDI clocks per metronome
    /// click, thirty-second notes per quarter note.
    TimeSignature(u8, u8, u8, u8),
    /// Sharps (positive) or flats (negative), and whether the key is minor.
    KeySignature(i8, bool),
    /// Microseconds per quarter note, below 2^24.
    Tempo(u32),
    TrackName(Vec<u8>),
    EndOfTrack,
}

#[derive(Clone, Debug, PartialEq, Eq)]
pub enum TrackEventKind {
    Midi { channel: u8, message: ChannelMessage },
    Meta(MetaPayload),
}

/// An event of a track, `delta` ticks after the previous event of the track.
#[derive(Clone, Debug, PartialEq, Eq)]
pub struct TrackEvent {
    pub delta: u32,
    pub kind: TrackEventKind,
}

/// An ordered sequence of events, ended by a single `EndOfTrack`.
#[derive(Clone, Debug, PartialEq, Eq)]
pub struct Track {
    pub events: Vec<TrackEvent>,
}

#[derive(Clone, Copy, Debug, PartialEq, Eq, Structural)]
pub enum Format {
    SingleTrack,
    Parallel,
    Sequential,
}

/// The file header: its format and its ticks per quarter note (below 2^15).
#[derive(Clone, Copy, Debug, PartialEq, Eq, Structural)]
pub struct Header {
    pub format: Format,
    pub division: u16,
}

#[derive(Clone, Debug, PartialEq, Eq)]
pub struct SmfFile {
    pub header: Header,
    pub tracks: Vec<Track>,
}

pub enum MetaModel {
    TimeSignature(u8, u8, u8, u8),
    KeySignature(i8, bool),
    Tempo(u32),
    TrackName(Seq<u8>),
    EndOfTrack,
}

pub enum KindModel {
    Midi { channel: u8, message: ChannelMessage },
    Meta(MetaModel),
}

pub struct EventModel {
    pub delta: u32,
    pub kind: KindModel,
}

pub struct FileModel {
    pub format: Format,
    pub division: u16,
    pub tracks: Seq<Seq<EventModel>>,
}

impl View for MetaPayload {
    type V = MetaModel;

    open spec fn view(&self) -> MetaModel {
        match self {
            MetaPayload::TimeSignature(a, b, c, d) => MetaModel::TimeSignature(*a, *b, *c, *d),
            MetaPayload::KeySignature(s, m) => MetaModel::KeySignature(*s, *m),
            MetaPayload::Tempo(t) => MetaModel::Tempo(*t),
            MetaPayload::TrackName(n) => MetaModel::TrackName(n@),
            MetaPayload::EndOfTrack => MetaModel::EndOfTrack,
        }
    }
}

impl View for TrackEvent {
    type V = EventModel;

    open spec fn view(&self) -> EventModel {
        EventModel {
            delta: self.delta,
            kind: match self.kind {
                TrackEventKind::Midi { channel, message } => KindModel::Midi { channel, message },
                TrackEventKind::Meta(p) => KindModel::Meta(p@),
            },
        }
    }
}

impl View for Track {
    type V = Seq<EventModel>;

    open spec fn view(&self) -> Seq<EventModel> {
        self.events@.map_values(|e: TrackEvent| e@)
    }
}

impl View for SmfFile {
    type V = FileModel;

    open spec fn view(&self) -> FileModel {
        FileModel {
            format: self.header.format,
            division: self.header.division,
            tracks: self.tracks@.map_values(|t: Track| t@),
        }
    }
}

pub open spec fn is_end_of_track(e: EventModel) -> bool {
    e.kind == KindModel::Meta(MetaModel::EndOfTrack)
}

/// The track ends with an `EndOfTrack`, and has no other.
pub open spec fn terminated(t: Seq<EventModel>) -> bool {
    &&& t.len() >= 1
    &&& is_end_of_track(t.last())
    &&& forall|i: int| 0 <= i < t.len() - 1 ==> !is_end_of_track(#[trigger] t[i])
}

pub open spec fn message_wf(m: ChannelMessage) -> bool {
    match m {
        ChannelMessage::NoteOff { key, vel } => key < 128 && vel < 128,
        ChannelMessage::NoteOn { key, vel } => key < 128 && vel < 128,
        ChannelMessage::Aftertouch { key, vel } => key < 128 && vel < 128,
        ChannelMessage::Controller { controller, value } => controller < 128 && value < 128,
        ChannelMessage::ProgramChange { program } => program < 128,
        ChannelMessage::ChannelAftertouch { vel } => vel < 128,
        ChannelMessage::PitchBend { bend } => bend < 0x4000,
    }
}

pub open spec fn event_wf(e: EventModel) -> bool {
    &&& e.delta <= VLQ_MAX
    &&& match e.kind {
        KindModel::Midi { channel, message } => channel < 16 && message_wf(message),
        KindModel::Meta(MetaModel::Tempo(t)) => t < 0x100_0000,
        KindModel::Meta(MetaModel::TrackName(n)) => n.len() <= VLQ_MAX,
        KindModel::Meta(_) => true,
    }
}

/// Each event is representable, the last event is the only `EndOfTrack`,
/// and the encoded events fit a chunk's 32-bit length.
pub open spec fn track_wf(t: Seq<EventModel>) -> bool {
    &&& t.len() >= 1
    &&& is_end_of_track(t.last())
    &&& forall|i: int| 0 <= i < t.len() - 1 ==> !is_end_of_track(#[trigger] t[i])
    &&& forall|i: int| 0 <= i < t.len() ==> event_wf(#[trigger] t[i])
    &&& enc_events(t).len() < 0x1_0000_0000
}

pub open spec fn file_wf(f: FileModel) -> bool {
    &&& f.division < 0x8000
    &&& f.tracks.len() < 0x1_0000
    &&& forall|i: int| 0 <= i < f.tracks.len() ==> track_wf(#[trigger] f.tracks[i])
}

pub open spec fn status_nibble(m: ChannelMessage) -> u8 {
    match m {
        ChannelMessage::NoteOff { .. } => 0x8,
        ChannelMessage::NoteOn { .. } => 0x9,
        ChannelMessage::Aftertouch { .. } => 0xA,
        ChannelMessage::Controller { .. } => 0xB,
        ChannelMessage::ProgramChange { .. } => 0xC,
        ChannelMessage::ChannelAftertouch { .. } => 0xD,
        ChannelMessage::PitchBend { .. } => 0xE,
    }
}

/// The data bytes of a channel message, each masked to seven bits.
pub open spec fn data_bytes(m: ChannelMessage) -> Seq<u8> {
    match m {
        ChannelMessage::NoteOff { key, vel } => seq![key % 128, vel % 128],
        ChannelMessage::NoteOn { key, vel } => seq![key % 128, vel % 128],
        ChannelMessage::Aftertouch { key, vel } => seq![key % 128, vel % 128],
        ChannelMessage::Controller { controller, value } => seq![controller % 128, value % 128],
        ChannelMessage::ProgramChange { program } => seq![program % 128],
        ChannelMessage::ChannelAftertouch { vel } => seq![vel % 128],
        ChannelMessage::PitchBend { bend } => seq![(bend % 128) as u8, (bend / 128 % 128) as u8],
    }
}

pub open spec fn midi_body(channel: u8, m: ChannelMessage) -> Seq<u8> {
    seq![(status_nibble(m) * 16 + channel % 16) as u8] + data_bytes(m)
}

pub open spec fn sharps_byte(s: i8) -> u8 {
    if s < 0 {
        (s + 256) as u8
    } else {
        s as u8
    }
}

pub open spec fn meta_type(m: MetaModel) -> u8 {
    match m {
        MetaModel::TimeSignature(..) => 0x58,
        MetaModel::KeySignature(..) => 0x59,
        MetaModel::Tempo(..) => 0x51,
        MetaModel::TrackName(..) => 0x03,
        MetaModel::EndOfTrack => 0x2F,
    }
}

pub open spec fn meta_data(m: MetaModel) -> Seq<u8> {
    match m {
        MetaModel::TimeSignature(a, b, c, d) => seq![a, b, c, d],
        MetaModel::KeySignature(s, minor) => seq![sharps_byte(s), if minor { 1u8 } else { 0u8 }],
        MetaModel::Tempo(t) => seq![(t / 0x1_0000 % 256) as u8, (t / 256 % 256) as u8, (t % 256) as u8],
        MetaModel::TrackName(n) => n,
        MetaModel::EndOfTrack => seq![],
    }
}

pub open spec fn meta_body(m: MetaModel) -> Seq<u8> {
    seq![0xFFu8, meta_type(m)] + vlq(meta_data(m).len()) + meta_data(m)
}

/// An event as bytes: its delta time, then its body.
pub open spec fn enc_event(e: EventModel) -> Seq<u8> {
    vlq(e.delta as nat) + match e.kind {
        KindModel::Midi { channel, message } => midi_body(channel, message),
        KindModel::Meta(m) => meta_body(m),
    }
}

pub open spec fn enc_events(t: Seq<EventModel>) -> Seq<u8>
    decreases t.len(),
{
    if t.len() == 0 {
        seq![]
    } else {
        enc_events(t.drop_last()) + enc_event(t.last())
    }
}

pub open spec fn be16(n: nat) -> Seq<u8> {
    seq![(n / 256 % 256) as u8, (n % 256) as u8]
}

pub open spec fn be32(n: nat) -> Seq<u8> {
    seq![(n / 0x100_0000 % 256) as u8, (n / 0x1_0000 % 256) as u8, (n / 256 % 256) as u8, (n % 256) as u8]
}

pub open spec fn header_tag() -> Seq<u8> {
    seq![0x4Du8, 0x54u8, 0x68u8, 0x64u8]
}

pub open spec fn track_tag() -> Seq<u8> {
    seq![0x4Du8, 0x54u8, 0x72u8, 0x6Bu8]
}

pub open spec fn enc_track(t: Seq<EventModel>) -> Seq<u8> {
    track_tag() + be32(enc_events(t).len()) + enc_events(t)
}

pub open spec fn enc_tracks(ts: Seq<Seq<EventModel>>) -> Seq<u8>
    decreases ts.len(),
{
    if ts.len() == 0 {
        seq![]
    } else {
        enc_tracks(ts.drop_last()) + enc_track(ts.last())
    }
}

pub open spec fn format_code(f: Format) -> nat {
    match f {
        Format::SingleTrack => 0,
        Format::Parallel => 1,
        Format::Sequential => 2,
    }
}

pub open spec fn enc_header(f: FileModel) -> Seq<u8> {
    header_tag() + be32(6) + be16(format_code(f.format)) + be16(f.tracks.len()) + be16(
        f.division as nat,
    )
}

/// A whole file as bytes: the header chunk, then one chunk per track.
pub open spec fn enc_file(f: FileModel) -> Seq<u8> {
    enc_header(f) + enc_tracks(f.tracks)
}

} // verus!
