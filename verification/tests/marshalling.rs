use dbus::marshal::Arg;
use dbus::marshal::BusString;
use dbus::marshal::DictMap;
use dbus::marshal::ObjPath;
use dbus::marshal::VariantVal;
use dbus::marshal::round_trip;
use dbus::message::BodyCursor;
use dbus::message::Message;
use dbus::message::ReadError;
use dbus::signature::SigError;
use dbus::signature::Signature;
use dbus::signature::Ty;
use dbus::value::Value;

#[test]
fn signature_text_round_trip() {
    let texts: [&[u8]; 8] = [
        b"",
        b"i",
        b"a{sv}",
        b"a(ii)x",
        b"aai",
        b"(i(ss))y",
        b"yyyyuua{ys}",
        b"a{s(iv)}",
    ];
    for t in texts {
        let bytes = t.to_vec();
        let sig = Signature::parse(&bytes).expect("valid signature text");
        assert_eq!(sig.to_text(), bytes);
    }
}

#[test]
fn signature_text_round_trip_from_types() {
    let sig = Signature {
        elems: vec![
            Ty::Array(Box::new(Ty::Str)),
            Ty::Struct(vec![Ty::Int32, Ty::Variant]),
        ],
    };
    let text = sig.to_text();
    assert_eq!(text, b"as(iv)".to_vec());
    assert_eq!(Signature::parse(&text), Ok(sig));
}

#[test]
fn signature_rejects_malformed() {
    let texts: [&[u8]; 9] =
        [b"z", b"a", b"(", b"(i", b"()", b"{si}", b"a{vs}", b"i)", b"a{s"];
    for t in texts {
        let bytes = t.to_vec();
        assert_eq!(Signature::parse(&bytes), Err(SigError::MalformedSignature));
    }
}

#[test]
fn signature_nesting_ceiling() {
    // 32 nested arrays are accepted ...
    let mut ok = vec![b'a'; 32];
    ok.push(b'i');
    assert!(Signature::parse(&ok).is_ok());
    // ... 33 are rejected.
    let mut deep = vec![b'a'; 33];
    deep.push(b'i');
    assert_eq!(Signature::parse(&deep), Err(SigError::MalformedSignature));
}

#[test]
fn signature_length_ceiling() {
    let ok = vec![b'i'; 64];
    assert!(Signature::parse(&ok).is_ok());
    let long = vec![b'i'; 65];
    assert_eq!(Signature::parse(&long), Err(SigError::MalformedSignature));
}

#[test]
fn signature_accessors() {
    let bytes = b"a{sv}(iy)".to_vec();
    let sig = Signature::parse(&bytes).unwrap();
    assert_eq!(sig.len(), 2);
    let arr = &sig.elems[0];
    let entry = arr.element_type().expect("array has an element type");
    assert!(entry.element_type().is_none());
    let st = &sig.elems[1];
    let fields = st.field_types().expect("struct has field types");
    assert_eq!(fields.len(), 2);
    assert_eq!(fields[0], Ty::Int32);
    assert_eq!(fields[1], Ty::Byte);
    assert!(dbus::signature::is_basic(&Ty::Str));
    assert!(!dbus::signature::is_basic(&Ty::Variant));
}

#[test]
fn round_trip_basic_kinds() {
    assert_eq!(round_trip(&42i32), Some(42i32));
    assert_eq!(round_trip(&true), Some(true));
    assert_eq!(round_trip(&7u8), Some(7u8));
    assert_eq!(round_trip(&-5i16), Some(-5i16));
    assert_eq!(round_trip(&65535u16), Some(65535u16));
    assert_eq!(round_trip(&4000000000u32), Some(4000000000u32));
    assert_eq!(round_trip(&-9i64), Some(-9i64));
    assert_eq!(round_trip(&18446744073709551615u64), Some(18446744073709551615u64));
    let s = BusString { bytes: b"hello".to_vec() };
    assert_eq!(round_trip(&s), Some(BusString { bytes: b"hello".to_vec() }));
    let p = ObjPath { bytes: b"/org/example".to_vec() };
    assert_eq!(round_trip(&p), Some(ObjPath { bytes: b"/org/example".to_vec() }));
}

#[test]
fn round_trip_containers() {
    let v: Vec<i32> = vec![1, 2, 3];
    assert_eq!(round_trip(&v), Some(vec![1, 2, 3]));
    let nested: Vec<Vec<u16>> = vec![vec![1], vec![], vec![2, 3]];
    assert_eq!(round_trip(&nested), Some(vec![vec![1u16], vec![], vec![2, 3]]));
    let pair: (i32, BusString) = (9, BusString { bytes: b"x".to_vec() });
    assert_eq!(round_trip(&pair), Some((9, BusString { bytes: b"x".to_vec() })));
    let dict = DictMap {
        entries: vec![
            (BusString { bytes: b"a".to_vec() }, 1i32),
            (BusString { bytes: b"b".to_vec() }, 2i32),
        ],
    };
    let back = round_trip(&dict).expect("dict round trips");
    assert_eq!(back.entries.len(), 2);
    assert_eq!(back.entries[0].0.bytes, b"a".to_vec());
    assert_eq!(back.entries[0].1, 1);
    assert_eq!(back.entries[1].0.bytes, b"b".to_vec());
    assert_eq!(back.entries[1].1, 2);
}

#[test]
fn double_bits_round_trip() {
    let d = dbus::marshal::DoubleBits { bits: 0x400921FB54442D18 };
    assert_eq!(round_trip(&d), Some(d));
    assert_eq!(round_trip(&d).unwrap().bits, f64::to_bits(3.141592653589793));
}

#[test]
fn body_signature_tracks_appends() {
    let mut m = Message::new_signal(b"/o".to_vec(), b"i.f".to_vec(), b"S".to_vec());
    assert_eq!(m.body_signature().to_text(), Vec::<u8>::new());
    m.append(&1i32);
    m.append(&vec![BusString { bytes: b"x".to_vec() }]);
    m.append(&VariantVal { inner: Value::Bool(true) });
    assert_eq!(m.body_signature().to_text(), b"iasv".to_vec());
}

#[test]
fn wrong_type_is_rejected() {
    let v = 42i32.to_value();
    assert_eq!(u32::from_value(&v), None);
    assert_eq!(BusString::from_value(&v), None);
    // an array of int32 is not an array of bytes, even when empty
    let empty: Vec<i32> = vec![];
    let arr = empty.to_value();
    assert_eq!(<Vec<u8> as Arg>::from_value(&arr), None);
    assert_eq!(<Vec<i32> as Arg>::from_value(&arr), Some(vec![]));
}

#[test]
fn variant_fidelity() {
    // writing 42 (int32) as a variant keeps both the value and the
    // exact inner signature "i"
    let var = VariantVal { inner: Value::Int32(42) };
    let mut m = Message::new_signal(b"/x".to_vec(), b"com.example".to_vec(), b"S".to_vec());
    m.append(&var);
    let back = m.read_at::<VariantVal>(0).expect("variant reads back");
    assert_eq!(back.inner, Value::Int32(42));
    let inner_ty = back.inner.wire_type();
    let sig = Signature { elems: vec![inner_ty] };
    assert_eq!(sig.to_text(), b"i".to_vec());
    // reading it as a plain int32 without unwrapping fails recoverably
    assert_eq!(m.read_at::<i32>(0), Err(ReadError::TypeMismatch));
}

#[test]
fn message_append_and_read() {
    let mut m = Message::new_method_call(
        Some(b"com.example.Dest".to_vec()),
        b"/obj".to_vec(),
        Some(b"com.example.If".to_vec()),
        b"Go".to_vec(),
    );
    m.append(&5i32);
    m.append(&BusString { bytes: b"hey".to_vec() });
    m.append(&vec![1u8, 2u8]);
    assert_eq!(m.arg_count(), 3);
    assert_eq!(m.read_at::<i32>(0), Ok(5));
    assert_eq!(
        m.read_at::<BusString>(1),
        Ok(BusString { bytes: b"hey".to_vec() }),
    );
    assert_eq!(m.read_at::<Vec<u8>>(2), Ok(vec![1u8, 2u8]));
    assert_eq!(m.read_at::<i32>(3), Err(ReadError::Exhausted));
    assert_eq!(m.read_at::<u8>(0), Err(ReadError::TypeMismatch));
}

#[test]
fn message_cursor_is_single_pass() {
    let mut m = Message::new_signal(b"/obj".to_vec(), b"i.f".to_vec(), b"S".to_vec());
    m.append(&1i32);
    m.append(&2i32);
    let mut c = BodyCursor::new();
    assert_eq!(c.next::<i32>(&m), Ok(1));
    // a failed read does not advance
    assert_eq!(c.next::<bool>(&m), Err(ReadError::TypeMismatch));
    assert_eq!(c.next::<i32>(&m), Ok(2));
    assert_eq!(c.next::<i32>(&m), Err(ReadError::Exhausted));
}

#[test]
fn method_return_inherits_from_call() {
    let mut call = Message::new_method_call(
        Some(b"com.example".to_vec()),
        b"/obj".to_vec(),
        None,
        b"Go".to_vec(),
    );
    call.set_serial(77);
    call.sender = Some(b":1.55".to_vec());
    let ret = Message::new_method_return(&call);
    assert_eq!(ret.reply_serial, Some(77));
    assert_eq!(ret.destination, Some(b":1.55".to_vec()));
    let err = Message::new_error(&call, b"com.example.Error.Bad".to_vec());
    assert_eq!(err.reply_serial, Some(77));
    assert_eq!(err.destination, Some(b":1.55".to_vec()));
    assert_eq!(err.error_name, Some(b"com.example.Error.Bad".to_vec()));
}
