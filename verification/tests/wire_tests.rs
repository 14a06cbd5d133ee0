use kv::wire::{decode_frame, encode_frame, read_varint_at, write_varint, FrameOutcome};

fn frame_round_trip(len: usize) {
    let payload: Vec<u8> = (0..len).map(|i| (i % 251) as u8).collect();
    let mut framed: Vec<u8> = Vec::new();
    encode_frame(&payload, &mut framed);
    match decode_frame(&framed, 0) {
        FrameOutcome::Frame(out, consumed) => {
            assert_eq!(out, payload);
            assert_eq!(consumed, framed.len());
        },
        _ => panic!("expected a whole frame"),
    }
}

#[test]
fn frame_round_trip_one_byte_prefix() {
    frame_round_trip(0);
    frame_round_trip(1);
    frame_round_trip(127);
}

#[test]
fn frame_round_trip_two_byte_prefix() {
    frame_round_trip(128);
    frame_round_trip(300);
    frame_round_trip(16383);
}

#[test]
fn frame_round_trip_three_byte_prefix() {
    frame_round_trip(16384);
    frame_round_trip(20000);
}

#[test]
fn prefix_width_matches_length() {
    let mut framed: Vec<u8> = Vec::new();
    encode_frame(&vec![0u8; 127], &mut framed);
    assert_eq!(framed.len(), 1 + 127);

    let mut framed: Vec<u8> = Vec::new();
    encode_frame(&vec![0u8; 128], &mut framed);
    assert_eq!(framed.len(), 2 + 128);

    let mut framed: Vec<u8> = Vec::new();
    encode_frame(&vec![0u8; 16384], &mut framed);
    assert_eq!(framed.len(), 3 + 16384);
}

#[test]
fn varint_exact_bytes() {
    let mut out: Vec<u8> = Vec::new();
    write_varint(0, &mut out);
    assert_eq!(out, vec![0x00]);

    let mut out: Vec<u8> = Vec::new();
    write_varint(300, &mut out);
    assert_eq!(out, vec![0xac, 0x02]);

    let mut out: Vec<u8> = Vec::new();
    write_varint(u64::MAX, &mut out);
    assert_eq!(out.len(), 10);
}

#[test]
fn varint_read_matches_write() {
    for n in [0u64, 1, 127, 128, 16383, 16384, 1 << 40, u64::MAX] {
        let mut out: Vec<u8> = Vec::new();
        write_varint(n, &mut out);
        let len = out.len();
        out.push(0xee);
        let buf: &[u8] = &out;
        assert_eq!(read_varint_at(buf, 0, 10), Some((n, len)));
    }
}

#[test]
fn unfinished_prefix_is_incomplete() {
    let buf = vec![0x80u8];
    assert!(matches!(decode_frame(&buf, 0), FrameOutcome::Incomplete));
}

#[test]
fn short_payload_is_incomplete() {
    let buf = vec![0x05u8, 1, 2];
    assert!(matches!(decode_frame(&buf, 0), FrameOutcome::Incomplete));
}

#[test]
fn endless_prefix_is_corrupt() {
    let buf = vec![0xffu8; 12];
    assert!(matches!(decode_frame(&buf, 0), FrameOutcome::Corrupt));
}

#[test]
fn zero_length_frame_decodes() {
    let empty: Vec<u8> = Vec::new();
    let mut framed: Vec<u8> = Vec::new();
    encode_frame(&empty, &mut framed);
    assert_eq!(framed, vec![0x00]);
    match decode_frame(&framed, 0) {
        FrameOutcome::Frame(out, consumed) => {
            assert!(out.is_empty());
            assert_eq!(consumed, 1);
        },
        _ => panic!("expected a whole frame"),
    }
}

#[test]
fn frame_decodes_at_offset() {
    let payload = vec![9u8, 8, 7];
    let mut framed = vec![0xaau8, 0xbb];
    encode_frame(&payload, &mut framed);
    match decode_frame(&framed, 2) {
        FrameOutcome::Frame(out, consumed) => {
            assert_eq!(out, payload);
            assert_eq!(consumed, 4);
        },
        _ => panic!("expected a whole frame"),
    }
}
