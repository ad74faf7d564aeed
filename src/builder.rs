use vstd::prelude::*;

use crate::error::MidiError;
use crate::quantize::{bpm_to_microseconds_per_beat, delta_at, micros_per_beat, quantize};
use crate::smf::{
    is_end_of_track, terminated, EventModel, FileModel, Format, Header, KindModel, MetaModel, MetaPayload,
    SmfFile, Track, TrackEvent, TrackEventKind,
};
use crate::vlq::VLQ_MAX;
use crate::wire::{decode_wire, wire_decode, ChannelMessage, WireMessage};

verus! {

/// A message as captured from the wire, with its arrival time.
#[derive(Clone, Debug, PartialEq, Eq)]
pub struct TimedEvent {
    pub timestamp_ms: u64,
    pub message: Vec<u8>,
}

impl View for TimedEvent {
    type V = (u64, Seq<u8>);

    open spec fn view(&self) -> (u64, Seq<u8>) {
        (self.timestamp_ms, self.message@)
    }
}

/// What to do with a captured message that does not decode.
#[derive(Clone, Copy, Debug, PartialEq, Eq, Structural)]
pub enum DecodePolicy {
    /// Fail the whole build with `InvalidEventStream`.
    Strict,
    /// Leave the message out and go on.
    Lenient,
}

/// Timing resolution, tempo and decoding policy of a capture.
#[derive(Clone, Copy, Debug, PartialEq, Eq, Structural)]
pub struct CaptureConfig {
    pub ticks_per_quarter: u16,
    pub bpm: u32,
    pub policy: DecodePolicy,
}

/// The events the note track records: note onsets only.
pub open spec fn is_recorded(m: WireMessage) -> bool {
    m.message is NoteOn
}

/// Tells whether a decoded message goes into the note track.
pub fn event_filter(m: &WireMessage) -> (r: bool)
    ensures
        r == is_recorded(*m),
{
    match m.message {
        ChannelMessage::NoteOn { .. } => true,
        _ => false,
    }
}

/// The recorded messages of a capture with their timestamps, in order;
/// messages that do not decode are passed over.
pub open spec fn recorded(evs: Seq<(u64, Seq<u8>)>) -> Seq<(u64, WireMessage)>
    decreases evs.len(),
{
    if evs.len() == 0 {
        seq![]
    } else {
        let rest = recorded(evs.drop_last());
        match wire_decode(evs.last().1) {
            Ok(m) => if is_recorded(m) {
                rest.push((evs.last().0, m))
            } else {
                rest
            },
            Err(_) => rest,
        }
    }
}

pub open spec fn all_decode(evs: Seq<(u64, Seq<u8>)>) -> bool {
    forall|i: int| 0 <= i < evs.len() ==> wire_decode(#[trigger] evs[i].1) is Ok
}

pub open spec fn times(k: Seq<(u64, WireMessage)>) -> Seq<u64> {
    k.map_values(|p: (u64, WireMessage)| p.0)
}

pub open spec fn note_events(k: Seq<(u64, WireMessage)>, tpq: nat, mpb: nat) -> Seq<EventModel> {
    Seq::new(
        k.len(),
        |i: int|
            EventModel {
                delta: delta_at(times(k), i, tpq, mpb) as u32,
                kind: KindModel::Midi { channel: k[i].1.channel, message: k[i].1.message },
            },
    )
}

pub open spec fn deltas_fit(k: Seq<(u64, WireMessage)>, tpq: nat, mpb: nat) -> bool {
    forall|i: int| 0 <= i < k.len() ==> #[trigger] delta_at(times(k), i, tpq, mpb) <= VLQ_MAX
}

pub open spec fn at_zero(kind: KindModel) -> EventModel {
    EventModel { delta: 0, kind }
}

pub open spec fn track_name() -> Seq<u8> {
    seq![0x4Du8, 0x79u8, 0x20u8, 0x54u8, 0x65u8, 0x73u8, 0x74u8]
}

/// The meta track: time signature, key signature, tempo, end of track.
pub open spec fn meta_track_events(tempo: u32) -> Seq<EventModel> {
    seq![
        at_zero(KindModel::Meta(MetaModel::TimeSignature(3, 4, 24, 8))),
        at_zero(KindModel::Meta(MetaModel::KeySignature(0, false))),
        at_zero(KindModel::Meta(MetaModel::Tempo(tempo))),
        at_zero(KindModel::Meta(MetaModel::EndOfTrack)),
    ]
}

/// The start of the note track: controller resets and a program change on
/// channel 0, then the track's name.
pub open spec fn setup_track_events() -> Seq<EventModel> {
    seq![
        at_zero(KindModel::Midi { channel: 0, message: ChannelMessage::Controller { controller: 0, value: 0 } }),
        at_zero(KindModel::Midi { channel: 0, message: ChannelMessage::Controller { controller: 37, value: 0 } }),
        at_zero(KindModel::Midi { channel: 0, message: ChannelMessage::ProgramChange { program: 0 } }),
        at_zero(KindModel::Meta(MetaModel::TrackName(track_name()))),
    ]
}

pub open spec fn closing_event() -> EventModel {
    EventModel { delta: 1, kind: KindModel::Meta(MetaModel::EndOfTrack) }
}

/// The file built from a capture, or why none is.
pub open spec fn build_result(evs: Seq<(u64, Seq<u8>)>, cfg: CaptureConfig) -> Result<FileModel, MidiError> {
    let tpq = cfg.ticks_per_quarter as nat;
    let mpb = micros_per_beat(cfg.bpm as nat);
    let k = recorded(evs);
    if cfg.ticks_per_quarter >= 0x8000 || cfg.bpm < 4 || cfg.bpm > 60_000_000 {
        Err(MidiError::EncodeError)
    } else if cfg.policy == DecodePolicy::Strict && !all_decode(evs) {
        Err(MidiError::InvalidEventStream)
    } else if !deltas_fit(k, tpq, mpb) {
        Err(MidiError::EncodeError)
    } else {
        Ok(
            FileModel {
                format: Format::Parallel,
                division: cfg.ticks_per_quarter,
                tracks: seq![
                    meta_track_events(mpb as u32),
                    setup_track_events() + note_events(k, tpq, mpb) + seq![closing_event()],
                ],
            },
        )
    }
}

/// Every track of a built file ends with an `EndOfTrack` and has no other.
pub proof fn lemma_built_tracks_terminated(evs: Seq<(u64, Seq<u8>)>, cfg: CaptureConfig)
    requires
        build_result(evs, cfg) is Ok,
    ensures
        forall|i: int|
            0 <= i < build_result(evs, cfg)->Ok_0.tracks.len() ==> terminated(
                #[trigger] build_result(evs, cfg)->Ok_0.tracks[i],
            ),
{
    let f = build_result(evs, cfg)->Ok_0;
    let mpb = micros_per_beat(cfg.bpm as nat);
    let k = recorded(evs);
    let notes = note_events(k, cfg.ticks_per_quarter as nat, mpb);
    let t = setup_track_events() + notes + seq![closing_event()];
    assert(f.tracks[0] == meta_track_events(mpb as u32));
    assert(f.tracks[1] == t);
    assert(terminated(meta_track_events(mpb as u32)));
    assert forall|i: int| 0 <= i < t.len() - 1 implies !is_end_of_track(#[trigger] t[i]) by {
        if i >= 4 {
            assert(t[i] == notes[i - 4]);
        }
    }
    assert(terminated(t));
}

pub open spec fn events_view(v: Seq<TrackEvent>) -> Seq<EventModel> {
    v.map_values(|e: TrackEvent| e@)
}

fn zero(kind: TrackEventKind) -> (r: TrackEvent)
    ensures
        r.delta == 0,
        r.kind == kind,
{
    TrackEvent { delta: 0, kind }
}

/// The meta track for a tempo of `tempo` microseconds per quarter note.
pub fn meta_track(tempo: u32) -> (r: Track)
    ensures
        r@ == meta_track_events(tempo),
{
    let mut events: Vec<TrackEvent> = Vec::new();
    events.push(zero(TrackEventKind::Meta(MetaPayload::TimeSignature(3, 4, 24, 8))));
    events.push(zero(TrackEventKind::Meta(MetaPayload::KeySignature(0, false))));
    events.push(zero(TrackEventKind::Meta(MetaPayload::Tempo(tempo))));
    events.push(zero(TrackEventKind::Meta(MetaPayload::EndOfTrack)));
    let r = Track { events };
    assert(r@ =~= meta_track_events(tempo));
    r
}

/// The fixed events that open the note track.
pub fn setup_events() -> (r: Vec<TrackEvent>)
    ensures
        events_view(r@) == setup_track_events(),
{
    let mut name: Vec<u8> = Vec::new();
    name.push(0x4D);
    name.push(0x79);
    name.push(0x20);
    name.push(0x54);
    name.push(0x65);
    name.push(0x73);
    name.push(0x74);
    assert(name@ =~= track_name());
    let mut events: Vec<TrackEvent> = Vec::new();
    events.push(zero(TrackEventKind::Midi { channel: 0, message: ChannelMessage::Controller { controller: 0, value: 0 } }));
    events.push(zero(TrackEventKind::Midi { channel: 0, message: ChannelMessage::Controller { controller: 37, value: 0 } }));
    events.push(zero(TrackEventKind::Midi { channel: 0, message: ChannelMessage::ProgramChange { program: 0 } }));
    events.push(zero(TrackEventKind::Meta(MetaPayload::TrackName(name))));
    assert(events_view(events@) =~= setup_track_events());
    events
}

/// Builds the two-track file of a capture: the meta track, then the note
/// track with one `NoteOn` event per recorded note onset, timed by the
/// quantizer, and a closing `EndOfTrack` one tick after the last note.
pub fn build_smf(events: &Vec<TimedEvent>, config: &CaptureConfig) -> (r: Result<SmfFile, MidiError>)
    ensures
        r matches Ok(f) ==> build_result(events@.map_values(|e: TimedEvent| e@), *config) == Ok::<
            FileModel,
            MidiError,
        >(f@),
        r matches Err(e) ==> build_result(events@.map_values(|e: TimedEvent| e@), *config) == Err::<
            FileModel,
            MidiError,
        >(e),
{
    let ghost evs = events@.map_values(|e: TimedEvent| e@);
    let tpq = config.ticks_per_quarter;
    let bpm = config.bpm;
    if tpq >= 0x8000 || bpm < 4 || bpm > 60_000_000 {
        return Err(MidiError::EncodeError);
    }
    let mut ts: Vec<u64> = Vec::new();
    let mut msgs: Vec<WireMessage> = Vec::new();
    let mut i: usize = 0;
    while i < events.len()
        invariant
            i <= events@.len(),
            evs == events@.map_values(|e: TimedEvent| e@),
            tpq == config.ticks_per_quarter,
            bpm == config.bpm,
            tpq < 0x8000,
            4 <= bpm <= 60_000_000,
            ts@.len() == msgs@.len(),
            ts@.len() == recorded(evs.take(i as int)).len(),
            forall|j: int|
                0 <= j < ts@.len() ==> (ts@[j], msgs@[j]) == #[trigger] recorded(
                    evs.take(i as int),
                )[j],
            config.policy == DecodePolicy::Strict ==> all_decode(evs.take(i as int)),
        decreases events@.len() - i,
    {
        let e = &events[i];
        assert(evs.take(i + 1).drop_last() =~= evs.take(i as int));
        assert(evs.take(i + 1).last() == e@);
        let decoded = decode_wire(e.message.as_slice());
        assert(evs[i as int] == e@);
        if decoded.is_err() && config.policy == DecodePolicy::Strict {
            assert(!all_decode(evs)) by {
                assert(wire_decode(evs[i as int].1) is Err);
            }
            return Err(MidiError::InvalidEventStream);
        }
        if let Ok(m) = decoded {
            if event_filter(&m) {
                ts.push(e.timestamp_ms);
                msgs.push(m);
            }
        }
        i += 1;
        assert forall|j: int|
            0 <= j < i && config.policy == DecodePolicy::Strict implies wire_decode(
                #[trigger] evs.take(i as int)[j].1,
            ) is Ok by {
            if j < i - 1 {
                assert(evs.take(i as int)[j] == evs.take(i - 1)[j]);
            } else {
                assert(evs.take(i as int)[j] == evs[i - 1]);
            }
        }
    }
    assert(evs.take(i as int) =~= evs);
    let ghost k = recorded(evs);
    assert(ts@ =~= times(k));
    let deltas = quantize(&ts, tpq, bpm);
    let mpb = bpm_to_microseconds_per_beat(bpm);
    let mut notes = setup_events();
    let ghost setup = events_view(notes@);
    let mut j: usize = 0;
    while j < deltas.len()
        invariant
            j <= deltas@.len(),
            deltas@.len() == k.len(),
            evs == events@.map_values(|e: TimedEvent| e@),
            k == recorded(evs),
            config.policy == DecodePolicy::Strict ==> all_decode(evs),
            tpq == config.ticks_per_quarter,
            bpm == config.bpm,
            msgs@.len() == k.len(),
            forall|x: int| 0 <= x < k.len() ==> msgs@[x] == #[trigger] k[x].1,
            forall|x: int|
                0 <= x < deltas@.len() ==> deltas@[x] as nat == delta_at(
                    times(k),
                    x,
                    tpq as nat,
                    micros_per_beat(bpm as nat),
                ),
            forall|x: int| 0 <= x < j ==> #[trigger] delta_at(times(k), x, tpq as nat, micros_per_beat(bpm as nat)) <= VLQ_MAX,
            setup == setup_track_events(),
            events_view(notes@) == setup + note_events(k, tpq as nat, micros_per_beat(bpm as nat)).take(
                j as int,
            ),
        decreases deltas@.len() - j,
    {
        let d = deltas[j];
        if d > VLQ_MAX as u128 {
            assert(delta_at(times(k), j as int, tpq as nat, micros_per_beat(bpm as nat)) > VLQ_MAX);
            assert(!deltas_fit(k, tpq as nat, micros_per_beat(bpm as nat)));
            return Err(MidiError::EncodeError);
        }
        let m = msgs[j];
        let ghost before = events_view(notes@);
        let ev = TrackEvent { delta: d as u32, kind: TrackEventKind::Midi { channel: m.channel, message: m.message } };
        let ghost nv = note_events(k, tpq as nat, micros_per_beat(bpm as nat));
        assert(ev@ == nv[j as int]);
        notes.push(ev);
        assert(events_view(notes@) =~= before.push(ev@));
        j += 1;
        assert(nv.take(j as int) =~= nv.take(j - 1).push(nv[j - 1]));
        assert(events_view(notes@) =~= setup + nv.take(j as int));
    }
    notes.push(TrackEvent { delta: 1, kind: TrackEventKind::Meta(MetaPayload::EndOfTrack) });
    let mut tracks: Vec<Track> = Vec::new();
    tracks.push(meta_track(mpb));
    tracks.push(Track { events: notes });
    let f = SmfFile { header: Header { format: Format::Parallel, division: tpq }, tracks };
    proof {
        let nv = note_events(k, tpq as nat, micros_per_beat(bpm as nat));
        assert(nv.take(j as int) =~= nv);
        assert(f.tracks@[1]@ =~= setup + nv + seq![closing_event()]);
        assert(f@.tracks =~= build_result(evs, *config)->Ok_0.tracks);
    }
    Ok(f)
}

} // verus!
