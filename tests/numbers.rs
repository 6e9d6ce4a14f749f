use protodef::cursor::{read_16, read_32, read_64, read_8};
use protodef::get_bytes::{eight, four, one, two};
use protodef::numbers::{parse, serial, NumKind};
use protodef::value::{CodecError, Protodef};

fn round_trip(kind: NumKind, v: Protodef, width: usize) {
    let mut out: Vec<u8> = vec![];
    assert_eq!(serial(kind, &v, &mut out), Ok(()));
    assert_eq!(out.len(), width);
    out.push(0xAB);
    let mut cur: &[u8] = &out;
    assert_eq!(parse(kind, &mut cur), Ok(v));
    assert_eq!(cur, &[0xAB][..]);
}

#[test]
fn fixed_width_round_trips() {
    round_trip(NumKind::Uint8, Protodef::Uint8(200), 1);
    round_trip(NumKind::Uint16, Protodef::Uint16(0xBEEF), 2);
    round_trip(NumKind::Uint32, Protodef::Uint32(0xDEAD_BEEF), 4);
    round_trip(NumKind::Uint64, Protodef::Uint64(u64::MAX), 8);
    round_trip(NumKind::Int8, Protodef::Int8(-128), 1);
    round_trip(NumKind::Int16, Protodef::Int16(-2), 2);
    round_trip(NumKind::Int32, Protodef::Int32(i32::MIN), 4);
    round_trip(NumKind::Int64, Protodef::Int64(-1234567890123), 8);
    round_trip(NumKind::Float, Protodef::Float((-2.5f32).to_bits()), 4);
    round_trip(NumKind::Double, Protodef::Double(1e300f64.to_bits()), 8);
}

#[test]
fn big_endian_bytes() {
    let mut out: Vec<u8> = vec![];
    serial(NumKind::Uint16, &Protodef::Uint16(0x1234), &mut out).unwrap();
    serial(NumKind::Int8, &Protodef::Int8(-1), &mut out).unwrap();
    serial(NumKind::Int32, &Protodef::Int32(-2), &mut out).unwrap();
    serial(NumKind::Float, &Protodef::Float(1.0f32.to_bits()), &mut out).unwrap();
    assert_eq!(
        out,
        vec![0x12, 0x34, 0xFF, 0xFF, 0xFF, 0xFF, 0xFE, 0x3F, 0x80, 0x00, 0x00]
    );
    let bytes = [0x01u8, 0x02, 0x03, 0x04, 0x05, 0x06, 0x07, 0x08];
    let mut cur: &[u8] = &bytes;
    assert_eq!(
        parse(NumKind::Uint64, &mut cur),
        Ok(Protodef::Uint64(0x0102_0304_0506_0708))
    );
    let mut cur: &[u8] = &bytes;
    assert_eq!(parse(NumKind::Int16, &mut cur), Ok(Protodef::Int16(0x0102)));
    assert_eq!(cur.len(), 6);
    let d = [0x40u8, 0x09, 0x21, 0xFB, 0x54, 0x44, 0x2D, 0x18];
    let mut cur: &[u8] = &d;
    match parse(NumKind::Double, &mut cur) {
        Ok(Protodef::Double(b)) => assert_eq!(f64::from_bits(b), std::f64::consts::PI),
        other => panic!("unexpected {:?}", other),
    }
}

#[test]
fn short_buffer_is_truncated_and_cursor_kept() {
    let bytes = [1u8, 2, 3];
    let kinds = [
        NumKind::Uint32,
        NumKind::Int32,
        NumKind::Float,
        NumKind::Uint64,
        NumKind::Int64,
        NumKind::Double,
    ];
    for k in kinds {
        let mut cur: &[u8] = &bytes;
        assert_eq!(parse(k, &mut cur), Err(CodecError::Truncated));
        assert_eq!(cur, &bytes[..]);
    }
    let empty: [u8; 0] = [];
    let mut cur: &[u8] = &empty;
    assert_eq!(parse(NumKind::Uint8, &mut cur), Err(CodecError::Truncated));
    let one_byte = [7u8];
    let mut cur: &[u8] = &one_byte;
    assert_eq!(parse(NumKind::Int16, &mut cur), Err(CodecError::Truncated));
    assert_eq!(cur, &one_byte[..]);
}

#[test]
fn serial_rejects_other_variant() {
    let mut out: Vec<u8> = vec![9];
    assert_eq!(
        serial(NumKind::Uint16, &Protodef::Uint8(1), &mut out),
        Err(CodecError::TypeMismatch)
    );
    assert_eq!(
        serial(NumKind::Double, &Protodef::Bool(true), &mut out),
        Err(CodecError::TypeMismatch)
    );
    assert_eq!(out, vec![9]);
}

#[test]
fn byte_group_reads() {
    let bytes = [1u8, 2, 3, 4, 5, 6, 7, 8, 9, 10, 11, 12, 13, 14, 15];
    let mut cur: &[u8] = &bytes;
    assert_eq!(read_8(&mut cur), Some([1]));
    assert_eq!(read_16(&mut cur), Some([2, 3]));
    assert_eq!(read_32(&mut cur), Some([4, 5, 6, 7]));
    assert_eq!(read_64(&mut cur), Some([8, 9, 10, 11, 12, 13, 14, 15]));
    assert_eq!(read_8(&mut cur), None);
    let mut cur: &[u8] = &bytes;
    assert_eq!(one(&mut cur), Some([1]));
    assert_eq!(two(&mut cur), Some([2, 3]));
    assert_eq!(four(&mut cur), Some([4, 5, 6, 7]));
    assert_eq!(eight(&mut cur), Some([8, 9, 10, 11, 12, 13, 14, 15]));
    let short = [1u8, 2, 3];
    let mut cur: &[u8] = &short;
    assert_eq!(eight(&mut cur), None);
    assert_eq!(read_32(&mut cur), None);
    assert_eq!(cur, &short[..]);
}
