use codec::{Decoder, Encoder};

#[test]
fn fixed_width_round_trip() {
    let cases: Vec<(usize, Vec<u64>)> = vec![
        (1, vec![0, 1, 0x7f, 0x80, 0xff]),
        (2, vec![0, 0xff, 0x100, 0x1234, 0xffff]),
        (4, vec![0, 0xffff, 0x1_0000, 0xdead_beef, 0xffff_ffff]),
        (
            8,
            vec![0, 0xffff_ffff, 0x1_0000_0000, 0x0123_4567_89ab_cdef, u64::MAX],
        ),
    ];
    for (n, values) in cases {
        for v in values {
            let mut encoder = Encoder::new();
            encoder.encode_uint(n, v);
            let bytes = encoder.raw();
            assert_eq!(bytes.len(), n);
            let mut decoder = Decoder::new(&bytes);
            assert_eq!(decoder.decode_uint(n), Some(v));
            assert_eq!(decoder.remain(), 0);
        }
    }
}

#[test]
fn fixed_width_round_trip_of_odd_widths() {
    for n in 0..=8_usize {
        let v = if n == 0 { 0 } else { u64::MAX >> (64 - 8 * n) };
        let mut encoder = Encoder::new();
        encoder.encode_uint(n, v);
        let bytes = encoder.raw();
        assert_eq!(bytes.len(), n);
        assert_eq!(Decoder::new(&bytes).decode_uint(n), Some(v));
    }
}

#[test]
fn fixed_width_round_trip_loses_what_did_not_fit() {
    let mut encoder = Encoder::new();
    encoder.encode_uint(2, 0x0012_3456_u32);
    let bytes = encoder.raw();
    assert_eq!(Decoder::new(&bytes).decode_uint(2), Some(0x3456));
}

#[test]
fn variable_width_round_trip() {
    let cases: Vec<(u64, usize)> = vec![
        (0, 1),
        (1, 1),
        (63, 1),
        (64, 2),
        (300, 2),
        (16383, 2),
        (16384, 4),
        (1_000_000, 4),
        ((1 << 30) - 1, 4),
        (1 << 30, 8),
        (5_000_000_000, 8),
        ((1 << 62) - 1, 8),
    ];
    for (v, width) in cases {
        let mut encoder = Encoder::new();
        encoder.encode_varint(v);
        let bytes = encoder.raw();
        assert_eq!(bytes.len(), width);
        let mut decoder = Decoder::new(&bytes);
        assert_eq!(decoder.decode_varint(), Some(v));
        assert_eq!(decoder.remain(), 0);
    }
}

#[test]
fn variable_width_round_trip_consumes_only_its_own_bytes() {
    let mut encoder = Encoder::new();
    encoder.encode_byte(0xee);
    encoder.encode_varint(16384_u32);
    encoder.encode_data(&[0xaa, 0xbb]);
    let bytes = encoder.raw();
    let mut decoder = Decoder::new(&bytes);
    assert_eq!(decoder.decode_uint(1), Some(0xee));
    let before = decoder.remain();
    assert_eq!(decoder.decode_varint(), Some(16384));
    assert_eq!(before - decoder.remain(), 4);
    assert_eq!(decoder.decode(2), Some(&[0xaa_u8, 0xbb][..]));
    assert!(decoder.empty());
}

#[test]
fn data_passes_through_unchanged() {
    let inputs: Vec<Vec<u8>> = vec![
        vec![],
        vec![0],
        vec![0xff, 0x00, 0x7f, 0x80],
        (0..=255).collect(),
    ];
    for data in inputs {
        let mut encoder = Encoder::new();
        encoder.encode_data(&data);
        assert_eq!(encoder.raw(), data);
    }
}

#[test]
fn values_come_back_in_the_order_written() {
    let mut encoder = Encoder::new();
    encoder.encode_uint(1, 5_u8);
    encoder.encode_uint(2, 300_u16);
    encoder.encode_varint(5_000_000_000_u64);
    let bytes = encoder.raw();
    assert_eq!(
        bytes,
        vec![0x05, 0x01, 0x2c, 0xc0, 0x00, 0x00, 0x01, 0x2a, 0x05, 0xf2, 0x00]
    );
    let mut decoder = Decoder::new(&bytes);
    assert_eq!(decoder.decode_uint(1), Some(5));
    assert_eq!(decoder.decode_uint(2), Some(300));
    assert_eq!(decoder.decode_varint(), Some(5_000_000_000));
    assert_eq!(decoder.remain(), 0);
}

#[test]
fn a_short_buffer_signals_absence_without_moving() {
    let mut encoder = Encoder::new();
    encoder.encode_uint(4, 0x0a0b_0c0d_u32);
    let bytes = encoder.raw();
    let mut decoder = Decoder::new(&bytes);
    assert_eq!(decoder.decode_uint(1), Some(0x0a));
    for n in 4..12_usize {
        let before = decoder.remain();
        assert_eq!(decoder.decode_uint(n), None);
        assert_eq!(decoder.remain(), before);
    }
    assert_eq!(decoder.decode_uint(3), Some(0x0b_0c0d));
}
