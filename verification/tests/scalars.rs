use ricklepick::error::DecodeError;
use ricklepick::value::Value;
use ricklepick::vm::VM;

type Transform = fn(Value) -> Value;

fn decode(body: &[u8]) -> Result<Value, DecodeError> {
    let mut stream = vec![0x80, 0x04];
    stream.extend_from_slice(body);
    stream.push(b'.');
    let mut vm: VM<Transform> = VM::from(stream)?;
    vm.decode_all()
}

fn binint(x: i32) -> Vec<u8> {
    let mut body = vec![b'J'];
    body.extend_from_slice(&x.to_le_bytes());
    body
}

#[test]
fn binint_boundaries() {
    for x in [0, 1, -1, i32::MAX, i32::MIN, 0x0102_0304, -2] {
        assert_eq!(decode(&binint(x)).unwrap().as_int(), Some(x));
    }
}

#[test]
fn binint_is_little_endian() {
    assert_eq!(decode(&[b'J', 0x01, 0x00, 0x00, 0x00]).unwrap().as_int(), Some(1));
    assert_eq!(decode(&[b'J', 0x00, 0x00, 0x00, 0x01]).unwrap().as_int(), Some(0x0100_0000));
    assert_eq!(decode(&[b'J', 0xff, 0xff, 0xff, 0xff]).unwrap().as_int(), Some(-1));
    assert_eq!(decode(&[b'J', 0x00, 0x00, 0x00, 0x80]).unwrap().as_int(), Some(i32::MIN));
}

#[test]
fn binint1_boundaries() {
    for x in [0u8, 1, 127, 128, 255] {
        assert_eq!(decode(&[b'K', x]).unwrap().as_uint(), Some(x as u32));
    }
}

#[test]
fn binint2_boundaries() {
    for x in [0u16, 1, 255, 256, 0x1234, u16::MAX] {
        let b = x.to_le_bytes();
        assert_eq!(decode(&[b'M', b[0], b[1]]).unwrap().as_uint(), Some(x as u32));
    }
}

#[test]
fn long1_boundaries() {
    assert_eq!(decode(&[0x8a, 0]).unwrap().as_long(), Some(0));
    assert_eq!(decode(&[0x8a, 1, 0x01]).unwrap().as_long(), Some(1));
    assert_eq!(decode(&[0x8a, 2, 0x34, 0x12]).unwrap().as_long(), Some(0x1234));
    let mut max = vec![0x8a, 16];
    max.extend_from_slice(&i128::MAX.to_le_bytes());
    assert_eq!(decode(&max).unwrap().as_long(), Some(i128::MAX));
    let mut min = vec![0x8a, 16];
    min.extend_from_slice(&i128::MIN.to_le_bytes());
    assert_eq!(decode(&min).unwrap().as_long(), Some(i128::MIN));
    let mut minus_one = vec![0x8a, 16];
    minus_one.extend_from_slice(&(-1i128).to_le_bytes());
    assert_eq!(decode(&minus_one).unwrap().as_long(), Some(-1));
}

#[test]
fn long1_is_padded_with_zero_bytes() {
    // A short integer is filled up with zero bytes, so its top bit is no sign.
    assert_eq!(decode(&[0x8a, 1, 0xff]).unwrap().as_long(), Some(255));
    assert_eq!(decode(&[0x8a, 2, 0x00, 0x80]).unwrap().as_long(), Some(0x8000));
    let mut wide = vec![0x8a, 10];
    wide.extend_from_slice(&[0x6c, 0xfc, 0x9c, 0x46, 0xf9, 0x20, 0x6a, 0xa8, 0x50, 0x19]);
    assert_eq!(decode(&wide).unwrap().as_long(), Some(0x1950a86a20f9469cfc6c));
}

#[test]
fn binfloat_is_big_endian() {
    for x in [0.0f64, 1.0, -1.0, 1.5, f64::MAX, f64::MIN_POSITIVE] {
        let mut body = vec![b'G'];
        body.extend_from_slice(&x.to_be_bytes());
        let bits = decode(&body).unwrap().as_float_bits().unwrap();
        assert_eq!(f64::from_bits(bits), x);
    }
    let one = decode(&[b'G', 0x3f, 0xf0, 0, 0, 0, 0, 0, 0]).unwrap();
    assert_eq!(one.as_float_bits(), Some(0x3ff0_0000_0000_0000));
}

#[test]
fn booleans_and_none() {
    assert_eq!(decode(&[0x88]).unwrap().as_bool(), Some(true));
    assert_eq!(decode(&[0x89]).unwrap().as_bool(), Some(false));
    assert_eq!(decode(&[b'N']).unwrap(), Value::Nil);
}

#[test]
fn texts() {
    assert_eq!(
        decode(&[0x8c, 3, b'f', b'o', b'o']).unwrap().as_string(),
        Some("foo".to_string())
    );
    assert_eq!(decode(&[0x8c, 0]).unwrap().as_string(), Some(String::new()));
    assert_eq!(
        decode(&[b'X', 2, 0, 0, 0, 0xc3, 0xa9]).unwrap().as_string(),
        Some("\u{e9}".to_string())
    );
    assert_eq!(
        decode(&[b'T', 2, 0, 0, 0, b'h', b'i']).unwrap().as_string(),
        Some("hi".to_string())
    );
    let long = "x".repeat(300);
    let mut body = vec![b'X', 0x2c, 0x01, 0, 0];
    body.extend_from_slice(long.as_bytes());
    assert_eq!(decode(&body).unwrap().as_string(), Some(long));
}

#[test]
fn byte_strings() {
    assert_eq!(
        decode(&[b'B', 3, 0, 0, 0, 1, 2, 0xff]).unwrap().as_bytes(),
        Some(vec![1, 2, 0xff])
    );
    assert_eq!(decode(&[b'B', 0, 0, 0, 0]).unwrap().as_bytes(), Some(vec![]));
}

#[test]
fn accessor_of_another_shape_gives_nothing() {
    assert_eq!(decode(&[b'K', 7]).unwrap().as_int(), None);
    assert_eq!(decode(&[b'K', 7]).unwrap().as_bool(), None);
    assert_eq!(decode(&binint(7)).unwrap().as_uint(), None);
    assert_eq!(decode(&binint(7)).unwrap().as_long(), None);
    assert_eq!(decode(&[0x88]).unwrap().as_string(), None);
    assert_eq!(decode(&[0x88]).unwrap().as_bytes(), None);
    assert_eq!(decode(&[0x88]).unwrap().as_ulong(), None);
    assert!(decode(&[0x88]).unwrap().as_instance().is_none());
}
