use ricklepick::error::{DecodeError, ErrorKind};
use ricklepick::machine::Status;
use ricklepick::value::{Instance, Value};
use ricklepick::vm::VM;
use std::cell::Cell;

type Transform = fn(Value) -> Value;

/// PROTO 4, GLOBAL ns Type, K 7, K 8, TUPLE2, REDUCE, STOP
fn request() -> Vec<u8> {
    let mut stream = vec![0x80, 4, b'c'];
    stream.extend_from_slice(b"ns\nType\n");
    stream.extend_from_slice(&[b'K', 7, b'K', 8, 0x86, b'R', b'.']);
    stream
}

fn args() -> Value {
    Value::Tuple(vec![Value::UInt(7), Value::UInt(8)])
}

fn first_of(args: Value) -> Value {
    match args {
        Value::Tuple(mut items) if !items.is_empty() => items.remove(0),
        other => other,
    }
}

fn as_list(args: Value) -> Value {
    match args {
        Value::Tuple(items) => Value::List(items),
        other => other,
    }
}

fn give_mark(_args: Value) -> Value {
    Value::List(vec![Value::Mark])
}

#[test]
fn a_registered_transform_is_called_once_with_the_arguments() {
    let calls = Cell::new(0u32);
    let seen = Cell::new(None);
    let transform = |v: Value| {
        calls.set(calls.get() + 1);
        seen.set(Some(v.clone()));
        Value::String("rebuilt".to_string())
    };
    let mut vm = VM::from(request()).unwrap();
    vm.load_extension("ns", "Type", transform);
    assert_eq!(vm.decode_all(), Ok(Value::String("rebuilt".to_string())));
    assert_eq!(calls.get(), 1);
    assert_eq!(seen.take(), Some(args()));
}

#[test]
fn the_result_is_what_the_transform_returns() {
    let mut vm: VM<Transform> = VM::from(request()).unwrap();
    vm.load_extension("ns", "Type", as_list);
    assert_eq!(
        vm.decode_all(),
        Ok(Value::List(vec![Value::UInt(7), Value::UInt(8)]))
    );
}

#[test]
fn without_a_transform_the_request_is_kept() {
    let mut vm: VM<Transform> = VM::from(request()).unwrap();
    let got = vm.decode_all().unwrap();
    let inst = Instance::new("Type".to_string(), "ns".to_string());
    assert_eq!(got, Value::Callable(inst.clone(), Box::new(args())));
    match got {
        Value::Callable(callable, boxed) => {
            assert_eq!(callable.as_key(), "ns.Type");
            assert_eq!(callable.name(), "Type");
            assert_eq!(callable.module(), "ns");
            assert_eq!(*boxed, args());
        }
        other => panic!("no callable: {:?}", other),
    }
}

#[test]
fn a_transform_for_another_type_is_not_called() {
    let calls = Cell::new(0u32);
    let transform = |v: Value| {
        calls.set(calls.get() + 1);
        v
    };
    let mut vm = VM::from(request()).unwrap();
    vm.load_extension("ns", "Other", &transform);
    vm.load_extension("ns.Type", "", &transform);
    vm.load_extension("n", "s.Type", &transform);
    let got = vm.decode_all().unwrap();
    assert_eq!(calls.get(), 0);
    assert!(matches!(got, Value::Callable(_, _)));
}

#[test]
fn the_key_is_module_dot_name() {
    // A key is matched as a whole: "a.b" + "." + "c" is the key of module "a" and name "b.c" too.
    let mut stream = vec![0x80, 4, b'c'];
    stream.extend_from_slice(b"a\nb.c\n");
    stream.extend_from_slice(&[b')', b'R', b'.']);
    let mut vm: VM<Transform> = VM::from(stream).unwrap();
    vm.load_extension("a.b", "c", as_list);
    assert_eq!(vm.decode_all(), Ok(Value::List(vec![])));
}

#[test]
fn registering_again_replaces_the_transform() {
    let mut vm: VM<Transform> = VM::from(request()).unwrap();
    vm.load_extension("ns", "Type", as_list);
    vm.load_extension("other", "Thing", as_list);
    vm.load_extension("ns", "Type", first_of);
    assert_eq!(vm.decode_all(), Ok(Value::UInt(7)));
}

#[test]
fn stack_global_names_the_type_too() {
    let mut stream = vec![0x80, 4];
    stream.extend_from_slice(&[0x8c, 2, b'n', b's', 0x8c, 4, b'T', b'y', b'p', b'e', 0x93]);
    stream.extend_from_slice(&[b'K', 7, b'K', 8, 0x86, b'R', b'.']);
    let mut vm: VM<Transform> = VM::from(stream.clone()).unwrap();
    vm.load_extension("ns", "Type", first_of);
    assert_eq!(vm.decode_all(), Ok(Value::UInt(7)));
    let mut plain: VM<Transform> = VM::from(stream).unwrap();
    let inst = Instance::new("Type".to_string(), "ns".to_string());
    assert_eq!(plain.decode_all(), Ok(Value::Callable(inst, Box::new(args()))));
}

#[test]
fn any_value_but_the_mark_is_an_argument() {
    let mut stream = vec![0x80, 4, b'c'];
    stream.extend_from_slice(b"ns\nType\n");
    stream.extend_from_slice(&[b'N', b'R', b'.']);
    let mut vm: VM<Transform> = VM::from(stream).unwrap();
    let inst = Instance::new("Type".to_string(), "ns".to_string());
    assert_eq!(vm.decode_all(), Ok(Value::Callable(inst, Box::new(Value::Nil))));
}

#[test]
fn reduce_needs_a_placeholder_below_an_argument() {
    let kind = |body: &[u8]| -> ErrorKind {
        let mut stream = vec![0x80, 4];
        stream.extend_from_slice(body);
        stream.push(b'.');
        let mut vm: VM<Transform> = VM::from(stream).unwrap();
        vm.decode_all().unwrap_err().kind
    };
    assert_eq!(kind(&[b'R']), ErrorKind::StackUnderflow);
    assert_eq!(kind(&[b')', b'R']), ErrorKind::StackUnderflow);
    assert_eq!(kind(&[b'K', 1, b')', b'R']), ErrorKind::StackTypeMismatch);
    assert_eq!(kind(&[b'c', b'm', b'\n', b'T', b'\n', b'(', b'R']), ErrorKind::StackTypeMismatch);
}

#[test]
fn a_reply_that_holds_the_mark_is_refused() {
    let mut vm: VM<Transform> = VM::from(request()).unwrap();
    vm.load_extension("ns", "Type", give_mark);
    assert!(vm.step());
    assert!(vm.step());
    assert!(vm.step());
    assert!(vm.step());
    assert_eq!(vm.depth(), 2);
    assert!(!vm.step());
    assert_eq!(vm.status(), Status::Failed(ErrorKind::StackTypeMismatch));
    assert_eq!(vm.depth(), 0);
    assert_eq!(
        vm.result(),
        Err(DecodeError { kind: ErrorKind::StackTypeMismatch, offset: 17 })
    );
}

#[test]
fn a_transform_may_decode_a_nested_stream() {
    fn nested(args: Value) -> Value {
        let bytes = first_of(args).as_bytes().unwrap();
        let mut inner: VM<Transform> = VM::from(bytes).unwrap();
        inner.decode_all().unwrap()
    }
    let inner = [0x80, 4, b'K', 5, b'K', 6, 0x86, b'.'];
    let mut stream = vec![0x80, 4, b'c'];
    stream.extend_from_slice(b"blob\nload\n");
    stream.extend_from_slice(&[b'B', inner.len() as u8, 0, 0, 0]);
    stream.extend_from_slice(&inner);
    stream.extend_from_slice(&[0x85, b'R', b'.']);
    let mut vm: VM<Transform> = VM::from(stream).unwrap();
    vm.load_extension("blob", "load", nested);
    assert_eq!(
        vm.decode_all(),
        Ok(Value::Tuple(vec![Value::UInt(5), Value::UInt(6)]))
    );
}
