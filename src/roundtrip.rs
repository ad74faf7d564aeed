use vstd::prelude::*;

use crate::decode::{be16_at, be32_at, format_of, parse_event, parse_events, parse_file, parse_meta, parse_tracks, sharps_of};
use crate::smf::{be16, be32, enc_event, enc_events, enc_file, enc_header, enc_track, enc_tracks, event_wf, file_wf, format_code, header_tag, is_end_of_track, message_wf, meta_body, meta_data, meta_type, midi_body, sharps_byte, status_nibble, track_tag, track_wf, EventModel, FileModel, KindModel, MetaModel};
use crate::vlq::{lemma_vlq_bytes_len, lemma_vlq_round_trip, vlq, VLQ_MAX};
use crate::wire::{byte_or_zero, data_arity, is_channel_status, message_of, ChannelMessage};

verus! {

proof fn lemma_enc_events_front(t: Seq<EventModel>)
    requires
        t.len() >= 1,
    ensures
        enc_events(t) == enc_event(t[0]) + enc_events(t.drop_first()),
    decreases t.len(),
{
    if t.len() == 1 {
        assert(enc_events(t.drop_last()) == Seq::<u8>::empty());
        assert(enc_events(t.drop_first()) == Seq::<u8>::empty());
        assert(t.last() == t[0]);
        assert(enc_events(t) =~= enc_event(t[0]) + enc_events(t.drop_first()));
    } else {
        lemma_enc_events_front(t.drop_last());
        assert(t.drop_first().drop_last() =~= t.drop_last().drop_first());
        assert(t.drop_last()[0] == t[0]);
        assert(t.drop_first().last() == t.last());
        assert(enc_events(t.drop_first()) == enc_events(t.drop_first().drop_last()) + enc_event(
            t.drop_first().last(),
        ));
        assert(enc_events(t) =~= enc_event(t[0]) + enc_events(t.drop_first()));
    }
}

proof fn lemma_enc_tracks_front(ts: Seq<Seq<EventModel>>)
    requires
        ts.len() >= 1,
    ensures
        enc_tracks(ts) == enc_track(ts[0]) + enc_tracks(ts.drop_first()),
    decreases ts.len(),
{
    if ts.len() == 1 {
        assert(enc_tracks(ts.drop_last()) == Seq::<u8>::empty());
        assert(enc_tracks(ts.drop_first()) == Seq::<u8>::empty());
        assert(ts.last() == ts[0]);
        assert(enc_tracks(ts) =~= enc_track(ts[0]) + enc_tracks(ts.drop_first()));
    } else {
        lemma_enc_tracks_front(ts.drop_last());
        assert(ts.drop_first().drop_last() =~= ts.drop_last().drop_first());
        assert(ts.drop_last()[0] == ts[0]);
        assert(ts.drop_first().last() == ts.last());
        assert(enc_tracks(ts.drop_first()) == enc_tracks(ts.drop_first().drop_last()) + enc_track(
            ts.drop_first().last(),
        ));
        assert(enc_tracks(ts) =~= enc_track(ts[0]) + enc_tracks(ts.drop_first()));
    }
}

proof fn lemma_be16(n: nat)
    requires
        n < 0x1_0000,
    ensures
        be16_at(be16(n), 0) == n,
{
    let b = be16(n);
    assert((n / 256 % 256) * 256 + n % 256 == n) by (nonlinear_arith)
        requires n < 0x1_0000;
}

proof fn lemma_be32(n: nat)
    requires
        n < 0x1_0000_0000,
    ensures
        be32_at(be32(n), 0) == n,
{
    assert(((n / 0x100_0000 % 256) * 256 + n / 0x1_0000 % 256) * 256 + n / 256 % 256 == n / 256)
        by (nonlinear_arith)
        requires n < 0x1_0000_0000;
    assert((n / 256) * 256 + n % 256 == n) by (nonlinear_arith);
}

proof fn lemma_meta_round_trip(m: MetaModel)
    requires
        m matches MetaModel::Tempo(t) ==> t < 0x100_0000,
    ensures
        parse_meta(meta_type(m), meta_data(m)) == Ok::<MetaModel, crate::error::MidiError>(m),
{
    match m {
        MetaModel::TimeSignature(a, b, c, d) => {},
        MetaModel::KeySignature(s, minor) => {
            assert(sharps_of(sharps_byte(s)) == s);
        },
        MetaModel::Tempo(t) => {
            let n = t as nat;
            assert((n / 0x1_0000 % 256) * 0x1_0000 + (n / 256 % 256) * 256 + n % 256 == n)
                by (nonlinear_arith)
                requires n < 0x100_0000;
        },
        MetaModel::TrackName(n) => {},
        MetaModel::EndOfTrack => {},
    }
}

proof fn lemma_midi_round_trip(channel: u8, m: ChannelMessage, x: u8)
    requires
        channel < 16,
        message_wf(m),
    ensures
        ({
            let b = midi_body(channel, m);
            &&& is_channel_status(b[0])
            &&& b.len() == 1 + data_arity(b[0])
            &&& b[0] % 16 == channel
            &&& b[1] < 128
            &&& (data_arity(b[0]) == 2 ==> b[2] < 128)
            &&& message_of(b[0], b[1], if data_arity(b[0]) == 2 { b[2] } else { x }) == m
        }),
{
    let b = midi_body(channel, m);
    let s = (status_nibble(m) * 16 + channel) as u8;
    assert(b[0] == s);
    assert(s / 16 == status_nibble(m));
    assert(s % 16 == channel);
    if let ChannelMessage::PitchBend { bend } = m {
        let n = bend as nat;
        assert((n / 128 % 128) * 128 + n % 128 == n) by (nonlinear_arith)
            requires n < 0x4000;
    }
}

proof fn lemma_bytes_at(c: Seq<u8>, pos: int, enc: Seq<u8>)
    requires
        0 <= pos,
        pos + enc.len() <= c.len(),
        c.subrange(pos, pos + enc.len()) == enc,
    ensures
        forall|i: int| 0 <= i < enc.len() ==> c[pos + i] == #[trigger] enc[i],
{
    assert forall|i: int| 0 <= i < enc.len() implies c[pos + i] == #[trigger] enc[i] by {
        assert(c.subrange(pos, pos + enc.len())[i] == c[pos + i]);
    }
}

proof fn lemma_parse_event(c: Seq<u8>, pos: int, e: EventModel)
    requires
        0 <= pos,
        event_wf(e),
        pos + enc_event(e).len() <= c.len(),
        c.subrange(pos, pos + enc_event(e).len()) == enc_event(e),
    ensures
        parse_event(c, pos) == Ok::<(EventModel, int), crate::error::MidiError>(
            (e, pos + enc_event(e).len()),
        ),
{
    let enc = enc_event(e);
    let v = vlq(e.delta as nat);
    let body = enc.subrange(v.len() as int, enc.len() as int);
    assert(enc =~= v + body);
    lemma_bytes_at(c, pos, enc);
    assert(c.subrange(pos, pos + v.len()) =~= v);
    lemma_vlq_round_trip(c, pos, e.delta as nat);
    let at_body = pos + v.len();
    assert forall|i: int| 0 <= i < body.len() implies c[at_body + i] == #[trigger] body[i] by {
        assert(c[pos + (v.len() + i)] == enc[v.len() + i]);
    }
    match e.kind {
        KindModel::Midi { channel, message } => {
            lemma_midi_round_trip(channel, message, byte_or_zero(c, at_body + 2));
            assert(body == midi_body(channel, message));
            assert(c[at_body] == body[0]);
            assert(c[at_body + 1] == body[1]);
            if data_arity(body[0]) == 2 {
                assert(c[at_body + 2] == body[2]);
            }
        },
        KindModel::Meta(m) => {
            let d = meta_data(m);
            let w = vlq(d.len());
            assert(body == meta_body(m));
            assert(body =~= seq![0xFFu8, meta_type(m)] + w + d);
            assert(c[at_body] == body[0]);
            assert(c[at_body + 1] == body[1]);
            assert(c.subrange(at_body + 2, at_body + 2 + w.len()) =~= w) by {
                assert forall|i: int| 0 <= i < w.len() implies c.subrange(at_body + 2, at_body + 2 + w.len())[i] == w[i] by {
                    assert(c[at_body + (2 + i)] == body[2 + i]);
                }
            }
            assert(d.len() <= VLQ_MAX) by {
                if let MetaModel::TrackName(n) = m {
                } else {
                }
            }
            lemma_vlq_round_trip(c, at_body + 2, d.len());
            let at_data = at_body + 2 + w.len();
            assert(c.subrange(at_data, at_data + d.len()) =~= d) by {
                assert forall|i: int| 0 <= i < d.len() implies c.subrange(at_data, at_data + d.len())[i] == d[i] by {
                    assert(c[at_body + (2 + w.len() + i)] == body[2 + w.len() + i]);
                }
            }
            lemma_meta_round_trip(m);
        },
    }
}

proof fn lemma_parse_events(c: Seq<u8>, pos: int, acc: Seq<EventModel>, t: Seq<EventModel>)
    requires
        0 <= pos,
        t.len() >= 1,
        is_end_of_track(t.last()),
        forall|i: int| 0 <= i < t.len() - 1 ==> !is_end_of_track(#[trigger] t[i]),
        forall|i: int| 0 <= i < t.len() ==> event_wf(#[trigger] t[i]),
        c.len() == pos + enc_events(t).len(),
        c.subrange(pos, c.len() as int) == enc_events(t),
    ensures
        parse_events(c, pos, acc) == Ok::<Seq<EventModel>, crate::error::MidiError>(acc + t),
    decreases t.len(),
{
    lemma_enc_events_front(t);
    let e0 = t[0];
    let l0 = enc_event(e0).len() as int;
    let rest = t.drop_first();
    lemma_vlq_bytes_len(e0.delta as nat, true);
    assert(c.subrange(pos, pos + l0) =~= enc_event(e0)) by {
        assert(c.subrange(pos, pos + l0) =~= c.subrange(pos, c.len() as int).subrange(0, l0));
    }
    assert(event_wf(t[0]));
    lemma_parse_event(c, pos, e0);
    if t.len() == 1 {
        assert(acc.push(e0) =~= acc + t);
    } else {
        assert(!is_end_of_track(t[0]));
        assert(c.subrange(pos + l0, c.len() as int) =~= enc_events(rest)) by {
            assert(c.subrange(pos + l0, c.len() as int) =~= c.subrange(pos, c.len() as int).subrange(l0, c.len() - pos));
        }
        assert forall|i: int| 0 <= i < rest.len() - 1 implies !is_end_of_track(#[trigger] rest[i]) by {
            assert(rest[i] == t[i + 1]);
        }
        assert forall|i: int| 0 <= i < rest.len() implies event_wf(#[trigger] rest[i]) by {
            assert(rest[i] == t[i + 1]);
        }
        lemma_parse_events(c, pos + l0, acc.push(e0), rest);
        assert(acc.push(e0) + rest =~= acc + t);
    }
}

proof fn lemma_read_chunk(s: Seq<u8>, pos: int, t: Seq<EventModel>)
    requires
        0 <= pos,
        track_wf(t),
        pos + enc_track(t).len() <= s.len(),
        s.subrange(pos, pos + enc_track(t).len()) == enc_track(t),
    ensures
        s.subrange(pos, pos + 4) == track_tag(),
        be32_at(s, pos + 4) == enc_events(t).len(),
        s.subrange(pos + 8, pos + 8 + enc_events(t).len()) == enc_events(t),
{
    let chunk = enc_track(t);
    let body = enc_events(t);
    let n = body.len();
    lemma_bytes_at(s, pos, chunk);
    assert(s.subrange(pos, pos + 4) =~= track_tag()) by {
        assert forall|i: int| 0 <= i < 4 implies s.subrange(pos, pos + 4)[i] == track_tag()[i] by {
            assert(s[pos + i] == chunk[i]);
        }
    }
    lemma_be32(n);
    assert forall|i: int| 0 <= i < 4 implies s[pos + 4 + i] == be32(n)[i] by {
        assert(s[pos + (4 + i)] == chunk[4 + i]);
    }
    assert(s.subrange(pos + 8, pos + 8 + n) =~= body) by {
        assert forall|i: int| 0 <= i < n implies s.subrange(pos + 8, pos + 8 + n)[i] == body[i] by {
            assert(s[pos + (8 + i)] == chunk[8 + i]);
        }
    }
}

proof fn lemma_parse_tracks(s: Seq<u8>, pos: int, acc: Seq<Seq<EventModel>>, ts: Seq<Seq<EventModel>>)
    requires
        0 <= pos,
        forall|i: int| 0 <= i < ts.len() ==> track_wf(#[trigger] ts[i]),
        s.len() == pos + enc_tracks(ts).len(),
        s.subrange(pos, s.len() as int) == enc_tracks(ts),
    ensures
        parse_tracks(s, pos, ts.len(), acc) == Ok::<Seq<Seq<EventModel>>, crate::error::MidiError>(acc + ts),
    decreases ts.len(),
{
    if ts.len() == 0 {
        assert(acc + ts =~= acc);
    } else {
        lemma_enc_tracks_front(ts);
        let t0 = ts[0];
        assert(track_wf(t0));
        let body = enc_events(t0);
        let n = body.len();
        let l0 = enc_track(t0).len() as int;
        let rest = ts.drop_first();
        assert(s.subrange(pos, pos + l0) =~= enc_track(t0)) by {
            assert(s.subrange(pos, pos + l0) =~= s.subrange(pos, s.len() as int).subrange(0, l0));
        }
        assert(s.subrange(pos + l0, s.len() as int) =~= enc_tracks(rest)) by {
            assert(s.subrange(pos + l0, s.len() as int) =~= s.subrange(pos, s.len() as int).subrange(
                l0,
                s.len() - pos,
            ));
        }
        lemma_read_chunk(s, pos, t0);
        let c = s.subrange(pos + 8, pos + 8 + n);
        assert(c.subrange(0, c.len() as int) =~= c);
        lemma_parse_events(c, 0, seq![], t0);
        assert(seq![] + t0 =~= t0);
        assert forall|i: int| 0 <= i < rest.len() implies track_wf(#[trigger] rest[i]) by {
            assert(rest[i] == ts[i + 1]);
        }
        lemma_parse_tracks(s, pos + 8 + n, acc.push(t0), rest);
        assert(acc.push(t0) + rest =~= acc + ts);
    }
}

proof fn lemma_header(f: FileModel)
    requires
        file_wf(f),
    ensures
        enc_header(f).len() == 14,
        enc_header(f).subrange(0, 4) == header_tag(),
        be32_at(enc_header(f), 4) == 6,
        be16_at(enc_header(f), 8) == format_code(f.format),
        be16_at(enc_header(f), 10) == f.tracks.len(),
        be16_at(enc_header(f), 12) == f.division as nat,
{
    let h = enc_header(f);
    lemma_be32(6);
    lemma_be16(format_code(f.format));
    lemma_be16(f.tracks.len());
    lemma_be16(f.division as nat);
    assert(h.subrange(0, 4) =~= header_tag());
    assert(h[4] == be32(6)[0] && h[5] == be32(6)[1] && h[6] == be32(6)[2] && h[7] == be32(6)[3]);
    assert(h[8] == be16(format_code(f.format))[0] && h[9] == be16(format_code(f.format))[1]);
    assert(h[10] == be16(f.tracks.len())[0] && h[11] == be16(f.tracks.len())[1]);
    assert(h[12] == be16(f.division as nat)[0] && h[13] == be16(f.division as nat)[1]);
}

/// Decoding the encoding of a well-formed file gives back that file; in
/// particular its header declares as many tracks as chunks follow it.
pub proof fn lemma_decode_encode(f: FileModel)
    requires
        file_wf(f),
    ensures
        parse_file(enc_file(f)) == Ok::<FileModel, crate::error::MidiError>(f),
{
    let s = enc_file(f);
    let h = enc_header(f);
    lemma_header(f);
    assert forall|i: int| 0 <= i < 14 implies s[i] == #[trigger] h[i] by {}
    assert(s.subrange(0, 4) =~= h.subrange(0, 4));
    assert(format_of(format_code(f.format)) == f.format);
    assert(s.subrange(14, s.len() as int) =~= enc_tracks(f.tracks));
    lemma_parse_tracks(s, 14, seq![], f.tracks);
    assert(seq![] + f.tracks =~= f.tracks);
}

/// The track count that the header of an encoded file declares is the
/// number of tracks, and reading the file back finds exactly that many
/// track chunks.
pub proof fn lemma_track_count(f: FileModel)
    requires
        file_wf(f),
    ensures
        be16_at(enc_file(f), 10) == f.tracks.len(),
        parse_file(enc_file(f)) matches Ok(g) && g.tracks.len() == f.tracks.len(),
{
    lemma_header(f);
    lemma_decode_encode(f);
    assert(enc_file(f)[10] == enc_header(f)[10]);
    assert(enc_file(f)[11] == enc_header(f)[11]);
}

} // verus!
