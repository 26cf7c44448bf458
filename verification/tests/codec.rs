use lv2_state::codec::{decode_payload, encode_atom_wire, encode_payload, parse_atom_wire, AtomKind, AtomValue};

fn round_trip(value: AtomValue, kind: AtomKind) {
    let payload = encode_payload(&value);
    assert_eq!(Some(value), decode_payload(kind, payload.as_slice()));
}

#[test]
fn scalar_round_trips() {
    for v in [0i32, 17, -1, i32::MAX, i32::MIN] {
        round_trip(AtomValue::Int32(v), AtomKind::Int32);
    }
    for v in [0i64, 1 << 40, -5, i64::MAX, i64::MIN] {
        round_trip(AtomValue::Int64(v), AtomKind::Int64);
    }
    for v in [1.0f32, -0.0, f32::NAN, f32::INFINITY, 1.5e-38] {
        round_trip(AtomValue::Float32Bits(v.to_bits()), AtomKind::Float32);
    }
    for v in [1.0f64, -2.5, f64::NAN, f64::NEG_INFINITY] {
        round_trip(AtomValue::Float64Bits(v.to_bits()), AtomKind::Float64);
    }
    round_trip(AtomValue::BoolVal(true), AtomKind::Bool);
    round_trip(AtomValue::BoolVal(false), AtomKind::Bool);
}

#[test]
fn byte_string_round_trips() {
    round_trip(AtomValue::Bytes(vec![]), AtomKind::Bytes);
    round_trip(
        AtomValue::Bytes(b"/home/user/sample.wav".to_vec()),
        AtomKind::Bytes,
    );
}

#[test]
fn vector_round_trips() {
    // empty, singleton and longer vectors all survive the round trip
    for elems in [vec![], vec![7], vec![1, 2, 3, 4], (0..100).collect::<Vec<i32>>()] {
        round_trip(
            AtomValue::VectorInt32 { elem_tag: 5, elems },
            AtomKind::VectorInt32 { elem_tag: 5 },
        );
    }
    for elems in [vec![], vec![1.0f32.to_bits()], vec![0.5f32.to_bits(), 2.0f32.to_bits()]] {
        round_trip(
            AtomValue::VectorFloat32 { elem_tag: 6, elems },
            AtomKind::VectorFloat32 { elem_tag: 6 },
        );
    }
    for elems in [vec![], vec![1i64 << 40], vec![i64::MIN, -1, 0, i64::MAX]] {
        round_trip(
            AtomValue::VectorInt64 { elem_tag: 7, elems },
            AtomKind::VectorInt64 { elem_tag: 7 },
        );
    }
    for elems in [vec![], vec![2.5f64.to_bits()], vec![f64::NAN.to_bits(), 0.0f64.to_bits()]] {
        round_trip(
            AtomValue::VectorFloat64 { elem_tag: 8, elems },
            AtomKind::VectorFloat64 { elem_tag: 8 },
        );
    }
    for elems in [vec![], vec![true], vec![true, false, false, true]] {
        round_trip(
            AtomValue::VectorBool { elem_tag: 9, elems },
            AtomKind::VectorBool { elem_tag: 9 },
        );
    }
}

#[test]
fn wide_vector_layout_and_failures() {
    // a 64-bit element vector: element tag word, then eight bytes per word
    assert_eq!(
        vec![7, 0, 0, 0, 2, 0, 0, 0, 0, 0, 0, 0],
        encode_payload(&AtomValue::VectorInt64 { elem_tag: 7, elems: vec![2] })
    );
    // a bool vector: one 32-bit word per value
    assert_eq!(
        vec![9, 0, 0, 0, 1, 0, 0, 0, 0, 0, 0, 0],
        encode_payload(&AtomValue::VectorBool { elem_tag: 9, elems: vec![true, false] })
    );
    // a body that is not a whole number of 64-bit elements
    assert!(
        decode_payload(AtomKind::VectorInt64 { elem_tag: 7 }, &[7, 0, 0, 0, 1, 0, 0, 0]).is_none()
    );
    // nonzero words read back as true
    assert_eq!(
        Some(AtomValue::VectorBool { elem_tag: 9, elems: vec![true] }),
        decode_payload(AtomKind::VectorBool { elem_tag: 9 }, &[9, 0, 0, 0, 5, 0, 0, 0])
    );
}

#[test]
fn exact_payload_bytes() {
    assert_eq!(vec![17, 0, 0, 0], encode_payload(&AtomValue::Int32(17)));
    assert_eq!(vec![0xff; 4], encode_payload(&AtomValue::Int32(-1)));
    assert_eq!(vec![1, 0, 0, 0], encode_payload(&AtomValue::BoolVal(true)));
    // a vector payload starts with its element type tag
    assert_eq!(
        vec![5, 0, 0, 0, 1, 0, 0, 0, 2, 0, 0, 0],
        encode_payload(&AtomValue::VectorInt32 { elem_tag: 5, elems: vec![1, 2] })
    );
}

#[test]
fn header_layout_and_round_trip() {
    let wire = encode_atom_wire(9, vec![1, 2, 3]);
    // [ type_tag: u32 ][ byte_length: u32 ][ payload ]
    assert_eq!(vec![9, 0, 0, 0, 3, 0, 0, 0, 1, 2, 3], wire);
    assert_eq!(Some((9, vec![1, 2, 3])), parse_atom_wire(wire.as_slice()));
}

#[test]
fn malformed_atoms_are_refused() {
    // shorter than a header
    assert!(parse_atom_wire(&[]).is_none());
    assert!(parse_atom_wire(&[9, 0, 0, 0, 1, 0, 0]).is_none());
    // declared length exceeds the bytes present
    assert!(parse_atom_wire(&[9, 0, 0, 0, 4, 0, 0, 0, 1, 2, 3]).is_none());
    // a declared length shorter than the bytes present is tolerated
    assert_eq!(
        Some((9, vec![1, 2])),
        parse_atom_wire(&[9, 0, 0, 0, 2, 0, 0, 0, 1, 2, 3])
    );
}

#[test]
fn malformed_payloads_decode_as_absent() {
    // wrong width for the expected scalar
    assert!(decode_payload(AtomKind::Int32, &[1, 2, 3]).is_none());
    assert!(decode_payload(AtomKind::Int32, &[1, 2, 3, 4, 5]).is_none());
    assert!(decode_payload(AtomKind::Int64, &[1, 2, 3, 4]).is_none());
    // vector element tag differs from the expected one
    assert!(
        decode_payload(AtomKind::VectorInt32 { elem_tag: 5 }, &[6, 0, 0, 0, 1, 0, 0, 0]).is_none()
    );
    // vector body is not a whole number of elements
    assert!(
        decode_payload(AtomKind::VectorInt32 { elem_tag: 5 }, &[5, 0, 0, 0, 1, 0]).is_none()
    );
    // too short to even hold the element tag
    assert!(decode_payload(AtomKind::VectorInt32 { elem_tag: 5 }, &[5, 0]).is_none());
}

#[test]
fn any_nonzero_word_reads_as_true() {
    assert_eq!(
        Some(AtomValue::BoolVal(true)),
        decode_payload(AtomKind::Bool, &[2, 0, 0, 0])
    );
    assert_eq!(
        Some(AtomValue::BoolVal(false)),
        decode_payload(AtomKind::Bool, &[0, 0, 0, 0])
    );
}
