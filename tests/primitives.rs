use protodef::value::{CodecError, Protodef};

#[test]
fn varint_encodings() {
    let cases: [(i32, &[u8]); 4] = [
        (0, &[0x00]),
        (300, &[0xAC, 0x02]),
        (-1, &[0xFF, 0xFF, 0xFF, 0xFF, 0x0F]),
        (127, &[0x7F]),
    ];
    for (v, bytes) in cases {
        let mut out: Vec<u8> = vec![];
        assert_eq!(Protodef::serial_varint(&Protodef::Int32(v), &mut out), Ok(()));
        assert_eq!(out, bytes.to_vec());
        let mut cur: &[u8] = &out;
        assert_eq!(Protodef::parse_varint(&mut cur), Ok(Protodef::Int32(v)));
        assert!(cur.is_empty());
    }
}

#[test]
fn varint_round_trips_and_leaves_rest() {
    for v in [1, -300, i32::MAX, i32::MIN, 1 << 20, 16384] {
        let mut out: Vec<u8> = vec![];
        Protodef::serial_varint(&Protodef::Int32(v), &mut out).unwrap();
        assert!(!out.is_empty() && out.len() <= 5);
        out.push(0x55);
        let mut cur: &[u8] = &out;
        assert_eq!(Protodef::parse_varint(&mut cur), Ok(Protodef::Int32(v)));
        assert_eq!(cur, &[0x55][..]);
    }
}

#[test]
fn varint_failures() {
    let over = [0xFFu8, 0xFF, 0xFF, 0xFF, 0x10];
    let mut cur: &[u8] = &over;
    assert_eq!(Protodef::parse_varint(&mut cur), Err(CodecError::VarIntOverflow));
    assert_eq!(cur, &over[..]);
    let endless = [0x80u8, 0x80, 0x80, 0x80, 0x80, 0x01];
    let mut cur: &[u8] = &endless;
    assert_eq!(Protodef::parse_varint(&mut cur), Err(CodecError::VarIntOverflow));
    let cut = [0x80u8, 0x80];
    let mut cur: &[u8] = &cut;
    assert_eq!(Protodef::parse_varint(&mut cur), Err(CodecError::Truncated));
    assert_eq!(cur, &cut[..]);
    let mut out: Vec<u8> = vec![];
    assert_eq!(
        Protodef::serial_varint(&Protodef::Uint32(1), &mut out),
        Err(CodecError::TypeMismatch)
    );
    assert!(out.is_empty());
}

#[test]
fn booleans() {
    let bad = [0x02u8];
    let mut cur: &[u8] = &bad;
    assert_eq!(Protodef::parse_bool(&mut cur), Err(CodecError::InvalidBoolEncoding));
    for (byte, b) in [(0u8, false), (1u8, true)] {
        let input = [byte];
        let mut cur: &[u8] = &input;
        assert_eq!(Protodef::parse_bool(&mut cur), Ok(Protodef::Bool(b)));
        assert!(cur.is_empty());
        let mut out: Vec<u8> = vec![];
        Protodef::serial_bool(&Protodef::Bool(b), &mut out).unwrap();
        assert_eq!(out, vec![byte]);
    }
    let empty: [u8; 0] = [];
    let mut cur: &[u8] = &empty;
    assert_eq!(Protodef::parse_bool(&mut cur), Err(CodecError::Truncated));
    let mut out: Vec<u8> = vec![];
    assert_eq!(
        Protodef::serial_bool(&Protodef::Uint8(1), &mut out),
        Err(CodecError::TypeMismatch)
    );
}

#[test]
fn null_terminated_strings() {
    let input = [b'h', b'i', 0x00, b'x'];
    let mut cur: &[u8] = &input;
    assert_eq!(
        Protodef::parse_cstring(&mut cur),
        Ok(Protodef::String("hi".to_string()))
    );
    assert_eq!(cur, &[b'x'][..]);
    let open = [b'h', b'i'];
    let mut cur: &[u8] = &open;
    assert_eq!(Protodef::parse_cstring(&mut cur), Err(CodecError::UnterminatedString));
    assert_eq!(cur, &open[..]);
    let bad = [0xC3u8, 0x28, 0x00];
    let mut cur: &[u8] = &bad;
    assert_eq!(Protodef::parse_cstring(&mut cur), Err(CodecError::InvalidUtf8));
    let empty = [0x00u8];
    let mut cur: &[u8] = &empty;
    assert_eq!(Protodef::parse_cstring(&mut cur), Ok(Protodef::String(String::new())));
    let mut out: Vec<u8> = vec![];
    Protodef::serial_cstring(&Protodef::String("h\u{e9}".to_string()), &mut out).unwrap();
    assert_eq!(out, vec![b'h', 0xC3, 0xA9, 0x00]);
    assert_eq!(
        Protodef::serial_cstring(&Protodef::Bool(true), &mut out),
        Err(CodecError::TypeMismatch)
    );
}

#[test]
fn void_and_length_given_reads() {
    let input = [1u8, 2, 3, b'o', b'k'];
    let mut cur: &[u8] = &input;
    assert_eq!(Protodef::parse_void(&mut cur), Ok(Protodef::Void()));
    assert_eq!(cur.len(), 5);
    let mut out: Vec<u8> = vec![];
    assert_eq!(Protodef::serial_void(&Protodef::Uint8(3), &mut out), Ok(()));
    assert!(out.is_empty());
    assert_eq!(
        Protodef::from_buffer(&mut cur, 3),
        Ok(Protodef::Buffer(vec![1, 2, 3]))
    );
    assert_eq!(Protodef::from_buffer(&mut cur, 3), Err(CodecError::Truncated));
    assert_eq!(cur.len(), 2);
    assert_eq!(
        Protodef::from_pstring(&mut cur, 2),
        Ok(Protodef::String("ok".to_string()))
    );
    assert!(cur.is_empty());
    let bad = [0xFFu8, 0xFE];
    let mut cur: &[u8] = &bad;
    assert_eq!(Protodef::from_pstring(&mut cur, 2), Err(CodecError::InvalidUtf8));
}
