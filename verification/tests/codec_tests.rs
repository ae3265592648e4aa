use canabi::codec::{lift, lower, DecodeError};
use canabi::value::{Shape, Value};

fn round_trip(t: &Shape, v: Value) -> Value {
    let wire = lower(&v);
    let back = lift(t, &wire).expect("lift of a lowered value");
    assert_eq!(back, v);
    back
}

#[test]
fn scalars_round_trip() {
    round_trip(&Shape::U8, Value::U8(u8::MAX));
    round_trip(&Shape::U8, Value::U8(0));
    round_trip(&Shape::S8, Value::S8(i8::MIN));
    round_trip(&Shape::U16, Value::U16(u16::MAX));
    round_trip(&Shape::S16, Value::S16(i16::MIN));
    round_trip(&Shape::U32, Value::U32(u32::MAX));
    round_trip(&Shape::S32, Value::S32(i32::MIN));
    round_trip(&Shape::U64, Value::U64(u64::MAX));
    round_trip(&Shape::S64, Value::S64(i64::MIN));
    round_trip(&Shape::Bool, Value::Bool(true));
    round_trip(&Shape::Bool, Value::Bool(false));
    round_trip(&Shape::Unit, Value::Unit);
}

#[test]
fn floats_round_trip_as_bit_patterns() {
    round_trip(&Shape::F32, Value::F32(123.456f32.to_bits()));
    round_trip(&Shape::F64, Value::F64((-987.654f64).to_bits()));
    // NaN: the codec carries the exact bit pattern, so every NaN comes back
    // as the same NaN bits.
    let nan32 = f32::NAN.to_bits();
    let got = round_trip(&Shape::F32, Value::F32(nan32));
    match got {
        Value::F32(bits) => {
            assert!(f32::from_bits(bits).is_nan());
            assert_eq!(bits, nan32);
        },
        _ => panic!("wrong shape back"),
    }
    let nan64 = f64::NAN.to_bits();
    round_trip(&Shape::F64, Value::F64(nan64));
}

#[test]
fn option_round_trip_and_absent_payload() {
    let t = Shape::Optional(Box::new(Shape::Text));
    round_trip(&t, Value::OptNone);
    round_trip(&t, Value::OptSome(Box::new(Value::Text(b"hi".to_vec()))));
    // The lowered absent option is one byte: no payload is ever touched.
    assert_eq!(lower(&Value::OptNone), vec![0u8]);
}

#[test]
fn result_round_trip_every_error_case() {
    // A three-case unit variant stands for a declared error enum.
    let err_shape = Shape::Variant(vec![Shape::Unit, Shape::Unit, Shape::Unit]);
    let t = Shape::Fallible(Box::new(Shape::Text), Box::new(err_shape));
    round_trip(&t, Value::ResOk(Box::new(Value::Text(b"fine".to_vec()))));
    for tag in 0..3u32 {
        round_trip(
            &t,
            Value::ResErr(Box::new(Value::Case(tag, Box::new(Value::Unit)))),
        );
    }
}

#[test]
fn variant_scenario_circle() {
    // Circle carries a 32-bit float; Rect a pair of them.
    let t = Shape::Variant(vec![
        Shape::F32,
        Shape::Tuple(vec![Shape::F32, Shape::F32]),
    ]);
    let circle = Value::Case(0, Box::new(Value::F32(2.5f32.to_bits())));
    let got = round_trip(&t, circle);
    match got {
        Value::Case(0, payload) => match *payload {
            Value::F32(bits) => assert_eq!(f32::from_bits(bits), 2.5f32),
            _ => panic!("wrong payload"),
        },
        _ => panic!("wrong case"),
    }
    let rect = Value::Case(
        1,
        Box::new(Value::Tuple(vec![
            Value::F32(3.0f32.to_bits()),
            Value::F32(4.0f32.to_bits()),
        ])),
    );
    round_trip(&t, rect);
}

#[test]
fn variant_out_of_range_tag_is_decode_error() {
    let t = Shape::Variant(vec![Shape::F32, Shape::Unit]);
    // Tag 5 little-endian, then a plausible payload.
    let wire = vec![5u8, 0, 0, 0, 0, 0, 0, 0];
    assert_eq!(lift(&t, &wire), Err(DecodeError::Tag));
}

#[test]
fn record_scenario() {
    // Record { a: u32 = 123, b: "hello", c: [10, 20, 30] }
    let t = Shape::Record(vec![
        Shape::U32,
        Shape::Text,
        Shape::List(Box::new(Shape::U32)),
    ]);
    let v = Value::Record(vec![
        Value::U32(123),
        Value::Text(b"hello".to_vec()),
        Value::List(vec![Value::U32(10), Value::U32(20), Value::U32(30)]),
    ]);
    round_trip(&t, v);
}

#[test]
fn hetero_tuple_round_trip() {
    let t = Shape::Tuple(vec![Shape::U32, Shape::U8, Shape::Text]);
    let v = Value::Tuple(vec![
        Value::U32(7),
        Value::U8(255),
        Value::Text(b"tuple".to_vec()),
    ]);
    round_trip(&t, v);
}

#[test]
fn flags_round_trip_all_subsets() {
    // Every subset of a 5-flag set round-trips; toggling one flag never
    // disturbs another.
    let t = Shape::FlagSet(5);
    for mask in 0..32u32 {
        let bits: Vec<bool> = (0..5).map(|i| mask & (1 << i) != 0).collect();
        let got = round_trip(&t, Value::FlagSet(bits.clone()));
        for j in 0..5 {
            let mut toggled = bits.clone();
            toggled[j] = !toggled[j];
            let back = lift(&t, &lower(&Value::FlagSet(toggled.clone()))).unwrap();
            match (&got, &back) {
                (Value::FlagSet(a), Value::FlagSet(b)) => {
                    for i in 0..5 {
                        if i != j {
                            assert_eq!(a[i], b[i]);
                        } else {
                            assert_eq!(a[i], !b[i]);
                        }
                    }
                },
                _ => panic!("wrong shape back"),
            }
        }
    }
}

#[test]
fn flags_wide_sets_round_trip() {
    for n in [1usize, 8, 9, 16, 17, 32, 33, 64] {
        let bits: Vec<bool> = (0..n).map(|i| i % 3 == 0).collect();
        round_trip(&Shape::FlagSet(n), Value::FlagSet(bits));
    }
}

#[test]
fn flags_stray_bits_are_decode_error() {
    // 3 declared flags occupy one byte; a set bit above them is malformed.
    let t = Shape::FlagSet(3);
    let wire = vec![0b0000_1000u8];
    assert_eq!(lift(&t, &wire), Err(DecodeError::FlagBits));
}

#[test]
fn sequence_integrity_lengths() {
    let t = Shape::List(Box::new(Shape::U16));
    for n in [0usize, 1, 1000] {
        let v = Value::List((0..n).map(|i| Value::U16((i % 65536) as u16)).collect());
        let wire = lower(&v);
        let back = lift(&t, &wire).unwrap();
        match back {
            Value::List(items) => {
                assert_eq!(items.len(), n);
                for (i, item) in items.iter().enumerate() {
                    assert_eq!(*item, Value::U16((i % 65536) as u16));
                }
            },
            _ => panic!("wrong shape back"),
        }
    }
}

#[test]
fn sequence_of_records_round_trip() {
    let rec = Shape::Record(vec![Shape::U32, Shape::Text]);
    let t = Shape::List(Box::new(rec));
    let v = Value::List(vec![
        Value::Record(vec![Value::U32(1), Value::Text(b"one".to_vec())]),
        Value::Record(vec![Value::U32(2), Value::Text(b"two".to_vec())]),
    ]);
    round_trip(&t, v);
}

#[test]
fn sequence_length_beyond_data_is_truncated() {
    // Length prefix says 3 elements, data holds one byte.
    let t = Shape::List(Box::new(Shape::U8));
    let wire = vec![3u8, 0, 0, 0, 42];
    assert_eq!(lift(&t, &wire), Err(DecodeError::Truncated));
}

#[test]
fn text_round_trip_and_utf8_rejection() {
    round_trip(&Shape::Text, Value::Text(Vec::new()));
    round_trip(&Shape::Text, Value::Text("déjà vu ✓".as_bytes().to_vec()));
    // 0xFF is never valid UTF-8.
    let wire = vec![2u8, 0, 0, 0, 0xFF, 0x20];
    assert_eq!(lift(&Shape::Text, &wire), Err(DecodeError::Utf8));
    // A lone continuation byte is invalid too.
    let wire2 = vec![1u8, 0, 0, 0, 0x80];
    assert_eq!(lift(&Shape::Text, &wire2), Err(DecodeError::Utf8));
}

#[test]
fn bad_discriminants_are_decode_errors() {
    let t = Shape::Optional(Box::new(Shape::U8));
    assert_eq!(lift(&t, &vec![2u8]), Err(DecodeError::Discriminant));
    let t2 = Shape::Fallible(Box::new(Shape::U8), Box::new(Shape::U8));
    assert_eq!(lift(&t2, &vec![7u8, 1]), Err(DecodeError::Discriminant));
    assert_eq!(lift(&Shape::Bool, &vec![2u8]), Err(DecodeError::Discriminant));
}

#[test]
fn truncated_and_trailing_data_are_decode_errors() {
    assert_eq!(lift(&Shape::U32, &vec![1u8, 2]), Err(DecodeError::Truncated));
    assert_eq!(lift(&Shape::U8, &vec![1u8, 2]), Err(DecodeError::Trailing));
    assert_eq!(lift(&Shape::Text, &vec![5u8, 0, 0, 0, b'h', b'i']), Err(DecodeError::Truncated));
}

#[test]
fn deep_nesting_round_trip() {
    // option<result<record{flags, list<variant>}, u8>>
    let variant = Shape::Variant(vec![Shape::Unit, Shape::U16]);
    let rec = Shape::Record(vec![Shape::FlagSet(10), Shape::List(Box::new(variant))]);
    let t = Shape::Optional(Box::new(Shape::Fallible(Box::new(rec), Box::new(Shape::U8))));
    let v = Value::OptSome(Box::new(Value::ResOk(Box::new(Value::Record(vec![
        Value::FlagSet((0..10).map(|i| i % 2 == 0).collect()),
        Value::List(vec![
            Value::Case(0, Box::new(Value::Unit)),
            Value::Case(1, Box::new(Value::U16(999))),
        ]),
    ])))));
    round_trip(&t, v);
}
