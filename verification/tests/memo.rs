use ricklepick::error::{DecodeError, ErrorKind};
use ricklepick::value::Value;
use ricklepick::vm::VM;

type Transform = fn(Value) -> Value;

fn decode(body: &[u8]) -> Result<Value, DecodeError> {
    let mut stream = vec![0x80, 0x04];
    stream.extend_from_slice(body);
    stream.push(b'.');
    let mut vm: VM<Transform> = VM::from(stream)?;
    vm.decode_all()
}

fn kind(body: &[u8]) -> ErrorKind {
    decode(body).unwrap_err().kind
}

/// One push for each shape of value that a stream can produce.
fn pushes() -> Vec<Vec<u8>> {
    vec![
        vec![0x88],
        vec![0x8c, 2, b'h', b'i'],
        vec![b'J', 0xfe, 0xff, 0xff, 0xff],
        vec![b'K', 200],
        vec![0x8a, 3, 1, 2, 3],
        vec![b'G', 0x40, 0x09, 0x21, 0xfb, 0x54, 0x44, 0x2d, 0x18],
        vec![b'(', b'K', 1, b'N', b't'],
        vec![b']', b'(', b'K', 1, b'K', 2, b'e'],
        vec![b'}', b'(', b'K', 1, 0x89, b'u'],
        vec![b'B', 2, 0, 0, 0, 0xde, 0xad],
        vec![b'c', b'm', b'\n', b'T', b'\n'],
        vec![b'c', b'm', b'\n', b'T', b'\n', b'K', 5, 0x85, b'R'],
        vec![b'N'],
    ]
}

#[test]
fn binget_gives_back_what_binput_stored() {
    for push in pushes() {
        let plain = decode(&push).unwrap();
        // push, BINPUT 0, push something else, BINGET 0
        let mut body = push.clone();
        body.extend_from_slice(&[b'q', 0, b'K', 99, b'h', 0]);
        assert_eq!(decode(&body).unwrap(), plain);
        // The stored value is also still where it was: push, BINPUT 0, BINGET 0, TUPLE2.
        let mut pair = push.clone();
        pair.extend_from_slice(&[b'q', 0, b'h', 0, 0x86]);
        assert_eq!(decode(&pair).unwrap(), Value::Tuple(vec![plain.clone(), plain]));
    }
}

#[test]
fn memoize_takes_the_next_free_index() {
    let body = [b'K', 1, 0x94, b'K', 2, 0x94, b'h', 0, b'h', 1, 0x87];
    assert_eq!(
        decode(&body).unwrap(),
        Value::Tuple(vec![Value::UInt(2), Value::UInt(1), Value::UInt(2)])
    );
}

#[test]
fn put_overwrites_an_entry_or_adds_the_next() {
    let body = [b'K', 1, b'q', 0, b'K', 2, b'q', 0, b'K', 3, b'q', 1, b'h', 0, b'h', 1, 0x86];
    assert_eq!(
        decode(&body).unwrap(),
        Value::Tuple(vec![Value::UInt(2), Value::UInt(3)])
    );
}

#[test]
fn put_beyond_the_next_free_index_is_refused() {
    assert_eq!(kind(&[b'K', 1, b'q', 1]), ErrorKind::MemoIndexOutOfRange);
    assert_eq!(kind(&[b'K', 1, b'q', 0, b'q', 2]), ErrorKind::MemoIndexOutOfRange);
    assert_eq!(kind(&[b'K', 1, b'r', 0xff, 0xff, 0xff, 0xff]), ErrorKind::MemoIndexOutOfRange);
}

#[test]
fn get_of_an_unset_index_is_refused() {
    assert_eq!(kind(&[b'h', 0]), ErrorKind::MemoIndexOutOfRange);
    assert_eq!(kind(&[b'K', 1, 0x94, b'h', 1]), ErrorKind::MemoIndexOutOfRange);
    assert_eq!(kind(&[b'j', 0, 0, 0, 0]), ErrorKind::MemoIndexOutOfRange);
    assert_eq!(kind(&[b'g', b'0', b'\n']), ErrorKind::MemoIndexOutOfRange);
}

#[test]
fn long_forms_take_four_byte_indices() {
    let body = [b'K', 7, b'r', 0, 0, 0, 0, b'N', b'j', 0, 0, 0, 0];
    assert_eq!(decode(&body).unwrap(), Value::UInt(7));
}

#[test]
fn text_forms_take_a_decimal_line() {
    let body = [
        b'K', 7, b'p', b'0', b'\n', b'K', 8, b'p', b'1', b'\n', b'N', b'g', b'1', b'\n',
    ];
    assert_eq!(decode(&body).unwrap(), Value::UInt(8));
    let leading_zeros = [b'K', 7, b'p', b'0', b'0', b'\n', b'g', b'0', b'0', b'0', b'\n'];
    assert_eq!(decode(&leading_zeros).unwrap(), Value::UInt(7));
}

#[test]
fn text_forms_reject_what_is_no_number() {
    assert_eq!(kind(&[b'K', 7, b'p', b'\n']), ErrorKind::InvalidTextEncoding);
    assert_eq!(kind(&[b'K', 7, b'p', b'1', b'x', b'\n']), ErrorKind::InvalidTextEncoding);
    assert_eq!(kind(&[b'K', 7, b'p', b'-', b'1', b'\n']), ErrorKind::InvalidTextEncoding);
    assert_eq!(kind(&[b'g', b' ', b'1', b'\n']), ErrorKind::InvalidTextEncoding);
    let mut huge = vec![b'g'];
    huge.extend_from_slice(b"4294967296\n");
    assert_eq!(kind(&huge), ErrorKind::MemoIndexOutOfRange);
    let mut largest = vec![b'g'];
    largest.extend_from_slice(b"4294967295\n");
    assert_eq!(kind(&largest), ErrorKind::MemoIndexOutOfRange);
    assert_eq!(kind(&[b'K', 7, b'p', b'1']), ErrorKind::TruncatedRead);
}

#[test]
fn storing_needs_a_value_on_the_stack() {
    assert_eq!(kind(&[0x94]), ErrorKind::StackUnderflow);
    assert_eq!(kind(&[b'q', 0]), ErrorKind::StackUnderflow);
    assert_eq!(kind(&[b'(', 0x94]), ErrorKind::StackTypeMismatch);
    assert_eq!(kind(&[b'(', b'q', 0]), ErrorKind::StackTypeMismatch);
}
