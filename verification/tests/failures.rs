use ricklepick::error::{DecodeError, ErrorKind};
use ricklepick::machine::Status;
use ricklepick::value::Value;
use ricklepick::vm::VM;

type Transform = fn(Value) -> Value;

fn run(body: &[u8]) -> Result<Value, DecodeError> {
    let mut stream = vec![0x80, 0x04];
    stream.extend_from_slice(body);
    let mut vm: VM<Transform> = VM::from(stream)?;
    vm.decode_all()
}

fn failure(kind: ErrorKind, offset: usize) -> Result<Value, DecodeError> {
    Err(DecodeError { kind, offset })
}

#[test]
fn an_unknown_byte_in_instruction_position() {
    assert_eq!(run(&[0x00]), failure(ErrorKind::UnknownOpcode, 3));
    assert_eq!(run(&[b'N', 0xff, b'.']), failure(ErrorKind::UnknownOpcode, 4));
}

#[test]
fn an_instruction_without_handler() {
    for byte in [b'0', b'1', b'2', b'C', b'F', b'I', b'L', b'P', b'S', b'U', b'V', b'd', b'i',
        b'l', b'o', b's', 0x82, 0x83, 0x84, 0x8b, 0x8d, 0x8e, 0x8f, 0x90, 0x91, 0x92, 0x96,
        0x97, 0x98]
    {
        assert_eq!(run(&[b'N', byte, 1, 2, b'.']), failure(ErrorKind::UnimplementedOpcode, 4));
    }
}

#[test]
fn an_integer_wider_than_sixteen_bytes() {
    let mut body = vec![0x8a, 17];
    body.extend_from_slice(&[0; 17]);
    body.push(b'.');
    assert_eq!(run(&body), failure(ErrorKind::UnimplementedOpcode, 4));
}

#[test]
fn a_stream_that_ends_too_early() {
    assert_eq!(run(&[]), failure(ErrorKind::TruncatedRead, 2));
    assert_eq!(run(&[b'N']), failure(ErrorKind::TruncatedRead, 3));
    assert_eq!(run(&[b'J', 1, 2, 3]), failure(ErrorKind::TruncatedRead, 3));
    assert_eq!(run(&[b'M', 1]), failure(ErrorKind::TruncatedRead, 3));
    assert_eq!(run(&[b'K']), failure(ErrorKind::TruncatedRead, 3));
    assert_eq!(run(&[b'G', 0, 0, 0, 0, 0, 0, 0]), failure(ErrorKind::TruncatedRead, 3));
    assert_eq!(run(&[0x8a]), failure(ErrorKind::TruncatedRead, 3));
    assert_eq!(run(&[0x8a, 4, 1, 2, 3]), failure(ErrorKind::TruncatedRead, 4));
    assert_eq!(run(&[0x8c]), failure(ErrorKind::TruncatedRead, 3));
    assert_eq!(run(&[0x8c, 4, b'f', b'o', b'o']), failure(ErrorKind::TruncatedRead, 4));
    assert_eq!(run(&[b'X', 4, 0, 0]), failure(ErrorKind::TruncatedRead, 3));
    assert_eq!(run(&[b'X', 4, 0, 0, 0, b'f']), failure(ErrorKind::TruncatedRead, 7));
    assert_eq!(run(&[b'B', 0xff, 0xff, 0xff, 0xff, 1]), failure(ErrorKind::TruncatedRead, 7));
    assert_eq!(run(&[b'T', 1, 0, 0, 0]), failure(ErrorKind::TruncatedRead, 7));
    assert_eq!(run(&[b'q']), failure(ErrorKind::TruncatedRead, 3));
    assert_eq!(run(&[b'r', 0, 0]), failure(ErrorKind::TruncatedRead, 3));
    assert_eq!(run(&[0x80]), failure(ErrorKind::TruncatedRead, 3));
}

#[test]
fn text_that_is_no_utf8() {
    assert_eq!(run(&[0x8c, 1, 0xff, b'.']), failure(ErrorKind::InvalidTextEncoding, 5));
    assert_eq!(run(&[0x8c, 2, 0xc3, 0x28, b'.']), failure(ErrorKind::InvalidTextEncoding, 6));
    assert_eq!(
        run(&[b'X', 3, 0, 0, 0, 0xed, 0xa0, 0x80, b'.']),
        failure(ErrorKind::InvalidTextEncoding, 10)
    );
    assert_eq!(
        run(&[b'T', 1, 0, 0, 0, 0x80, b'.']),
        failure(ErrorKind::InvalidTextEncoding, 8)
    );
    assert_eq!(run(&[0x8c, 2, 0xc3, 0xa9, b'.']), Ok(Value::String("\u{e9}".to_string())));
}

#[test]
fn a_length_over_the_limit() {
    let stream = vec![0x80, 4, 0x8c, 3, b'f', b'o', b'o', b'.'];
    let mut vm: VM<Transform> = VM::from(stream.clone()).unwrap();
    vm.set_limit(2);
    assert_eq!(vm.decode_all(), failure(ErrorKind::ResourceLimitExceeded, 4));
    let mut vm: VM<Transform> = VM::from(stream).unwrap();
    vm.set_limit(3);
    assert_eq!(vm.decode_all(), Ok(Value::String("foo".to_string())));
    let mut bytes: VM<Transform> =
        VM::from(vec![0x80, 4, b'B', 0xff, 0xff, 0xff, 0x7f, b'.']).unwrap();
    bytes.set_limit(1 << 20);
    assert_eq!(bytes.decode_all(), failure(ErrorKind::ResourceLimitExceeded, 7));
}

#[test]
fn a_negative_length_is_over_every_limit() {
    assert_eq!(
        run(&[b'T', 0xff, 0xff, 0xff, 0xff, b'.']),
        failure(ErrorKind::ResourceLimitExceeded, 7)
    );
    assert_eq!(
        run(&[b'T', 0, 0, 0, 0x80, b'.']),
        failure(ErrorKind::ResourceLimitExceeded, 7)
    );
}

#[test]
fn nothing_to_return() {
    assert_eq!(run(&[b'.']), failure(ErrorKind::EmptyOrMalformedResult, 3));
    assert_eq!(run(&[b'(', b'.']), failure(ErrorKind::EmptyOrMalformedResult, 4));
    assert_eq!(run(&[b'K', 1, b'(', b'.']), failure(ErrorKind::EmptyOrMalformedResult, 6));
}

#[test]
fn result_takes_one_value_off_the_stack() {
    let mut vm: VM<Transform> = VM::from(vec![0x80, 4, b'K', 1, b'K', 2, b'.']).unwrap();
    assert!(vm.step());
    assert!(vm.step());
    assert_eq!(vm.depth(), 2);
    assert!(!vm.step());
    assert_eq!(vm.status(), Status::Completed);
    assert_eq!(vm.result(), Ok(Value::UInt(2)));
    assert_eq!(vm.depth(), 1);
    assert_eq!(vm.result(), Ok(Value::UInt(1)));
    assert_eq!(vm.result(), failure(ErrorKind::EmptyOrMalformedResult, 7));
}

#[test]
fn a_stopped_decoder_stays_as_it_is() {
    let mut vm: VM<Transform> = VM::from(vec![0x80, 4, b'K', 1, b'.', b'K', 2, b'.']).unwrap();
    assert!(vm.step());
    assert!(!vm.step());
    assert_eq!(vm.position(), 5);
    assert!(!vm.step());
    assert!(!vm.step());
    assert_eq!(vm.position(), 5);
    assert_eq!(vm.depth(), 1);
    assert_eq!(vm.status(), Status::Completed);
    let mut failed: VM<Transform> = VM::from(vec![0x80, 4, b't', b'K', 2, b'.']).unwrap();
    assert!(!failed.step());
    assert_eq!(failed.status(), Status::Failed(ErrorKind::StackUnderflow));
    assert!(!failed.step());
    assert_eq!(failed.position(), 3);
    assert_eq!(failed.status(), Status::Failed(ErrorKind::StackUnderflow));
    assert_eq!(failed.result(), failure(ErrorKind::StackUnderflow, 3));
}

#[test]
fn a_failed_step_leaves_the_operands_where_they_were() {
    let mut vm: VM<Transform> = VM::from(vec![0x80, 4, b'K', 1, b'K', 2, b'e', b'.']).unwrap();
    assert!(vm.step());
    assert!(vm.step());
    assert!(!vm.step());
    assert_eq!(vm.depth(), 2);
    assert_eq!(vm.status(), Status::Failed(ErrorKind::StackUnderflow));
}

#[test]
fn read_n_takes_bytes_from_the_cursor() {
    let mut vm: VM<Transform> = VM::from(vec![0x80, 4, 1, 2, 3, b'N', b'.']).unwrap();
    assert_eq!(vm.read_n(0), Ok(vec![]));
    assert_eq!(vm.read_n(3), Ok(vec![1, 2, 3]));
    assert_eq!(vm.position(), 5);
    assert_eq!(
        vm.read_n(3),
        Err(DecodeError { kind: ErrorKind::TruncatedRead, offset: 5 })
    );
    vm.set_limit(1);
    assert_eq!(
        vm.read_n(2),
        Err(DecodeError { kind: ErrorKind::ResourceLimitExceeded, offset: 5 })
    );
    assert_eq!(vm.position(), 5);
    assert_eq!(vm.decode_all(), Ok(Value::Nil));
}
