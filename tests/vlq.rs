use midi_stats::error::{MidiError, ParseError};
use midi_stats::reader::read_vlq;
use midi_stats::vlq::{write_vlq, VLQ_MAX};

fn enc(n: u32) -> Vec<u8> {
    let mut v = Vec::new();
    write_vlq(&mut v, n);
    v
}

#[test]
fn vlq_encodings_are_minimal() {
    assert_eq!(enc(0), vec![0x00]);
    assert_eq!(enc(0x7F), vec![0x7F]);
    assert_eq!(enc(0x80), vec![0x81, 0x00]);
    assert_eq!(enc(0x3FFF), vec![0xFF, 0x7F]);
    assert_eq!(enc(0x4000), vec![0x81, 0x80, 0x00]);
    assert_eq!(enc(0x1F_FFFF), vec![0xFF, 0xFF, 0x7F]);
    assert_eq!(enc(0x20_0000), vec![0x81, 0x80, 0x80, 0x00]);
    assert_eq!(enc(VLQ_MAX), vec![0xFF, 0xFF, 0xFF, 0x7F]);
}

#[test]
fn vlq_decodes_what_it_encodes() {
    for n in [0u32, 1, 100, 127, 128, 300, 16383, 16384, 1_000_000, VLQ_MAX] {
        let mut v = vec![0xAA];
        write_vlq(&mut v, n);
        let len = v.len();
        v.push(0x55);
        assert_eq!(read_vlq(&v, 1), Ok((n, len)));
    }
}

#[test]
fn vlq_read_errors() {
    assert_eq!(read_vlq(&[0x81, 0x81, 0x81, 0x81, 0x00], 0), Err(MidiError::Parse(ParseError::BadVLQ)));
    assert_eq!(read_vlq(&[0x81, 0x81], 0), Err(MidiError::Parse(ParseError::UnexpectedEOF)));
    assert_eq!(read_vlq(&[], 0), Err(MidiError::Parse(ParseError::UnexpectedEOF)));
}
