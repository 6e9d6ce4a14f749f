use protodef::value::{CodecError, Protodef};

#[test]
fn object_assembly() {
    let mut obj = Protodef::new_object();
    assert_eq!(obj.set("a", Protodef::Uint8(1)), Ok(()));
    assert_eq!(obj.get("a"), Some(&Protodef::Uint8(1)));
    assert_eq!(obj.get("b"), None);
    assert_eq!(obj.set("a", Protodef::Bool(true)), Ok(()));
    assert_eq!(obj.get("a"), Some(&Protodef::Bool(true)));
    if let Some(v) = obj.get_mut("a") {
        *v = Protodef::Uint16(7);
    }
    assert_eq!(obj.get("a"), Some(&Protodef::Uint16(7)));
    assert!(obj.get_mut("zz").is_none());
    match &obj {
        Protodef::Object(es) => assert_eq!(es.len(), 1),
        _ => panic!("not an object"),
    }
}

#[test]
fn lookups_on_non_objects() {
    let arr = Protodef::new_array();
    assert_eq!(arr.get("a"), None);
    assert_eq!(Protodef::Bool(true).get("a"), None);
    assert_eq!(arr.as_array().map(|a| a.len()), Some(0));
    assert!(Protodef::Bool(true).as_array().is_none());
    let mut b = Protodef::Bool(false);
    assert_eq!(b.set("a", Protodef::Uint8(1)), Err(CodecError::NotApplicable));
    assert_eq!(b, Protodef::Bool(false));
    assert_eq!(
        Protodef::Buffer(vec![1, 2]).back_to_buffer(),
        Some(&vec![1u8, 2])
    );
    assert_eq!(Protodef::Void().back_to_buffer(), None);
    assert_eq!(
        Protodef::String("ab".to_string()).back_to_pstring(),
        Some(&b"ab"[..])
    );
    assert_eq!(Protodef::Uint8(0).back_to_pstring(), None);
}

#[test]
fn counts() {
    assert_eq!(Protodef::Uint8(5).as_count(), Some(5));
    assert_eq!(Protodef::Uint64(1 << 40).as_count(), Some(1 << 40));
    assert_eq!(Protodef::Int8(-1).as_count(), None);
    assert_eq!(Protodef::Int32(0).as_count(), Some(0));
    assert_eq!(Protodef::Int64(77).as_count(), Some(77));
    assert_eq!(Protodef::Float(3.0f32.to_bits()).as_count(), Some(3));
    assert_eq!(Protodef::Float(3.5f32.to_bits()).as_count(), None);
    assert_eq!(Protodef::Float(0.0f32.to_bits()).as_count(), Some(0));
    assert_eq!(Protodef::Float((-0.0f32).to_bits()).as_count(), Some(0));
    assert_eq!(Protodef::Double((-0.0f64).to_bits()).as_count(), Some(0));
    assert_eq!(Protodef::Float((-2.0f32).to_bits()).as_count(), None);
    assert_eq!(Protodef::Float(f32::INFINITY.to_bits()).as_count(), None);
    assert_eq!(Protodef::Float(1e-40f32.to_bits()).as_count(), None);
    assert_eq!(Protodef::Float(16777216.0f32.to_bits()).as_count(), Some(16777216));
    assert_eq!(Protodef::Double(f64::NAN.to_bits()).as_count(), None);
    assert_eq!(Protodef::Double(1024.0f64.to_bits()).as_count(), Some(1024));
    assert_eq!(Protodef::Double(0.5f64.to_bits()).as_count(), None);
    assert_eq!(Protodef::Double(1e30f64.to_bits()).as_count(), Some(usize::MAX));
    assert_eq!(Protodef::Bool(true).as_count(), None);
    assert_eq!(Protodef::String("3".to_string()).as_count(), None);
    assert_eq!(Protodef::new_array().as_count(), None);
}

#[test]
fn text_forms() {
    assert_eq!(Protodef::Uint8(42).as_text(), Some("42".to_string()));
    assert_eq!(Protodef::Uint64(u64::MAX).as_text(), Some(u64::MAX.to_string()));
    assert_eq!(Protodef::Int16(-305).as_text(), Some("-305".to_string()));
    assert_eq!(Protodef::Int64(i64::MIN).as_text(), Some(i64::MIN.to_string()));
    assert_eq!(Protodef::Bool(true).as_text(), Some("true".to_string()));
    assert_eq!(Protodef::Bool(false).as_text(), Some("false".to_string()));
    assert_eq!(Protodef::String("k".to_string()).as_text(), Some("k".to_string()));
    assert_eq!(Protodef::new_object().as_text(), Some(String::new()));
    assert_eq!(Protodef::Float(1.5f32.to_bits()).as_text(), None);
}
