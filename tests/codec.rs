use wrpc_dynamic::codec::CodecError;
use wrpc_dynamic::decoder::{decode, subchannel_count};
use wrpc_dynamic::encoder::encode;
use wrpc_dynamic::value::{Type, Value};

fn round_trip(v: Value, t: Type) {
    let bytes = encode(&v, &t).expect("value conforms to its type");
    let channels = subchannel_count(&v);
    let back = decode(&bytes, &t, channels).expect("wire form decodes");
    assert_eq!(back, v);
}

fn some(v: Value) -> Option<Box<Value>> {
    Some(Box::new(v))
}

#[test]
fn round_trip_scalars() {
    round_trip(Value::Bool(true), Type::Bool);
    round_trip(Value::Bool(false), Type::Bool);
    round_trip(Value::U8(255), Type::U8);
    round_trip(Value::U16(0xBEEF), Type::U16);
    round_trip(Value::U32(0xDEAD_BEEF), Type::U32);
    round_trip(Value::U64(u64::MAX), Type::U64);
    round_trip(Value::S8(-128), Type::S8);
    round_trip(Value::S16(-2), Type::S16);
    round_trip(Value::S32(i32::MIN), Type::S32);
    round_trip(Value::S64(-1234567890123), Type::S64);
    round_trip(Value::Char('é'), Type::Char);
    round_trip(Value::Char('\u{10FFFF}'), Type::Char);
    round_trip(Value::Str("héllo, wörld".to_string()), Type::Str);
    round_trip(Value::Str(String::new()), Type::Str);
    round_trip(Value::Own(0x0000_0001_0000_0002), Type::Own);
    round_trip(Value::Borrow(7), Type::Borrow);
}

#[test]
fn round_trip_nested_records_and_lists() {
    let point = Type::Record(vec![Type::S32, Type::S32]);
    let ty = Type::Record(vec![
        Type::Str,
        Type::List(Box::new(point)),
        Type::Tuple(vec![Type::U8, Type::Bool]),
    ]);
    let v = Value::Record(vec![
        Value::Str("path".to_string()),
        Value::List(vec![
            Value::Record(vec![Value::S32(1), Value::S32(-1)]),
            Value::Record(vec![Value::S32(2), Value::S32(-2)]),
        ]),
        Value::Record(vec![Value::U8(9), Value::Bool(true)]),
    ]);
    round_trip(v, ty);
    round_trip(Value::List(vec![]), Type::List(Box::new(Type::Str)));
}

#[test]
fn round_trip_every_variant_case() {
    let ty = || Type::Variant(vec![None, Some(Type::U32), Some(Type::Str)]);
    round_trip(Value::Variant(0, None), ty());
    round_trip(Value::Variant(1, some(Value::U32(42))), ty());
    round_trip(Value::Variant(2, some(Value::Str("x".to_string()))), ty());
    round_trip(Value::Variant(2, None), Type::Enum(3));
    let opt = || Type::Opt(Box::new(Type::U16));
    round_trip(Value::Variant(0, None), opt());
    round_trip(Value::Variant(1, some(Value::U16(5))), opt());
    let res = || Type::Res(Some(Box::new(Type::U8)), None);
    round_trip(Value::Variant(0, some(Value::U8(1))), res());
    round_trip(Value::Variant(1, None), res());
}

#[test]
fn round_trip_flags() {
    for bits in [0u32, 1, 0b10_0000_0001, 0b11_1111_1111] {
        round_trip(Value::Flags(bits), Type::Flags(10));
    }
    round_trip(Value::Flags(u32::MAX), Type::Flags(32));
    round_trip(Value::Flags(0), Type::Flags(0));
}

#[test]
fn round_trip_streams_and_futures() {
    let ty = Type::Record(vec![
        Type::Stream(Box::new(Type::U8)),
        Type::Future(Box::new(Type::Str)),
    ]);
    let v = Value::Record(vec![Value::Stream, Value::Future]);
    assert_eq!(subchannel_count(&v), 2);
    round_trip(v, ty);
}

#[test]
fn encodes_exact_bytes() {
    assert_eq!(encode(&Value::U32(0x0102_0304), &Type::U32).unwrap(), vec![4, 3, 2, 1]);
    assert_eq!(encode(&Value::S16(-2), &Type::S16).unwrap(), vec![0xFE, 0xFF]);
    assert_eq!(
        encode(&Value::Str("hi".to_string()), &Type::Str).unwrap(),
        vec![2, 0, 0, 0, b'h', b'i']
    );
    assert_eq!(
        encode(&Value::Flags(0b10_0000_0001), &Type::Flags(10)).unwrap(),
        vec![1, 2]
    );
    assert_eq!(
        encode(&Value::Variant(1, some(Value::U8(7))), &Type::Opt(Box::new(Type::U8))).unwrap(),
        vec![1, 0, 0, 0, 7]
    );
    assert_eq!(encode(&Value::Stream, &Type::Stream(Box::new(Type::U8))).unwrap(), vec![0]);
}

#[test]
fn encode_rejects_a_value_of_another_type() {
    assert_eq!(encode(&Value::U8(1), &Type::U16), Err(CodecError::TypeMismatch));
    assert_eq!(
        encode(&Value::Variant(3, None), &Type::Enum(3)),
        Err(CodecError::TypeMismatch)
    );
    assert_eq!(encode(&Value::Flags(4), &Type::Flags(2)), Err(CodecError::TypeMismatch));
    assert_eq!(
        encode(&Value::Record(vec![Value::U8(1)]), &Type::Tuple(vec![Type::U8, Type::U8])),
        Err(CodecError::TypeMismatch)
    );
}

#[test]
fn discriminant_out_of_range() {
    let variant = Type::Variant(vec![None, Some(Type::U8)]);
    assert_eq!(decode(&[2, 0, 0, 0], &variant, 0), Err(CodecError::InvalidDiscriminant));
    let opt = Type::Opt(Box::new(Type::U8));
    assert_eq!(decode(&[2, 0, 0, 0], &opt, 0), Err(CodecError::InvalidDiscriminant));
    let res = Type::Res(None, None);
    assert_eq!(decode(&[5, 0, 0, 0], &res, 0), Err(CodecError::InvalidDiscriminant));
    assert_eq!(decode(&[3, 0, 0, 0], &Type::Enum(3), 0), Err(CodecError::InvalidDiscriminant));
    assert_eq!(decode(&[2], &Type::Bool, 0), Err(CodecError::InvalidDiscriminant));
}

#[test]
fn one_byte_short_is_truncated() {
    assert_eq!(decode(&[1, 2, 3], &Type::U32, 0), Err(CodecError::Truncated));
    assert_eq!(decode(&[1, 2, 3, 4, 5, 6, 7], &Type::S64, 0), Err(CodecError::Truncated));
    assert_eq!(decode(&[], &Type::U8, 0), Err(CodecError::Truncated));
    assert_eq!(decode(&[3, 0, 0, 0, b'a', b'b'], &Type::Str, 0), Err(CodecError::Truncated));
    assert_eq!(decode(&[1, 0, 0], &Type::Opt(Box::new(Type::U8)), 0), Err(CodecError::Truncated));
}

#[test]
fn decode_errors() {
    assert_eq!(decode(&[0x00, 0xD8, 0, 0], &Type::Char, 0), Err(CodecError::InvalidChar));
    assert_eq!(decode(&[1, 0, 0, 0, 0xFF], &Type::Str, 0), Err(CodecError::InvalidString));
    assert_eq!(decode(&[0, 0, 0, 0, 0], &Type::Flags(33), 0), Err(CodecError::Unsupported));
    assert_eq!(decode(&[0b100], &Type::Flags(2), 0), Err(CodecError::InvalidDiscriminant));
    assert_eq!(
        decode(&[0], &Type::Stream(Box::new(Type::U8)), 0),
        Err(CodecError::Truncated)
    );
    assert_eq!(decode(&[0], &Type::Future(Box::new(Type::U8)), 1), Ok(Value::Future));
    assert_eq!(decode(&[7], &Type::U8, 1), Err(CodecError::Truncated));
}
