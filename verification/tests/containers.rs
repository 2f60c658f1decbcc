use ricklepick::error::{DecodeError, ErrorKind};
use ricklepick::value::{Dict, Value};
use ricklepick::vm::VM;

type Transform = fn(Value) -> Value;

fn decode(body: &[u8]) -> Result<Value, DecodeError> {
    let mut stream = vec![0x80, 0x04];
    stream.extend_from_slice(body);
    stream.push(b'.');
    let mut vm: VM<Transform> = VM::from(stream)?;
    vm.decode_all()
}

fn kind(body: &[u8]) -> ErrorKind {
    decode(body).unwrap_err().kind
}

fn marked_tuple(n: u8) -> Vec<u8> {
    let mut body = vec![b'('];
    for i in 0..n {
        body.extend_from_slice(&[b'K', 10 + i]);
    }
    body.push(b't');
    body
}

fn uints(from: u8, n: u8) -> Vec<Value> {
    (0..n).map(|i| Value::UInt((from + i) as u32)).collect()
}

#[test]
fn tuple_keeps_the_order_of_its_operands() {
    for n in [0u8, 1, 2, 3, 5] {
        let got = decode(&marked_tuple(n)).unwrap();
        assert_eq!(got, Value::Tuple(uints(10, n)));
        assert_eq!(got.as_tuple().unwrap().len(), n as usize);
    }
}

#[test]
fn tuple_takes_only_what_is_above_the_topmost_mark() {
    // K1 ( K2 ( K3 K4 t t: the inner tuple is an element of the outer one.
    let got = decode(&[b'(', b'K', 2, b'(', b'K', 3, b'K', 4, b't', b't']).unwrap();
    assert_eq!(
        got,
        Value::Tuple(vec![
            Value::UInt(2),
            Value::Tuple(vec![Value::UInt(3), Value::UInt(4)])
        ])
    );
}

#[test]
fn tuple_without_mark_underflows() {
    assert_eq!(kind(&[b'K', 1, b't']), ErrorKind::StackUnderflow);
    assert_eq!(kind(&[b't']), ErrorKind::StackUnderflow);
}

#[test]
fn fixed_arity_tuples() {
    assert_eq!(decode(&[b'K', 1, 0x85]).unwrap(), Value::Tuple(uints(1, 1)));
    assert_eq!(decode(&[b'K', 1, b'K', 2, 0x86]).unwrap(), Value::Tuple(uints(1, 2)));
    assert_eq!(
        decode(&[b'K', 1, b'K', 2, b'K', 3, 0x87]).unwrap(),
        Value::Tuple(uints(1, 3))
    );
    assert_eq!(decode(&[b')']).unwrap(), Value::Tuple(vec![]));
}

#[test]
fn fixed_arity_tuples_need_their_operands() {
    assert_eq!(kind(&[0x85]), ErrorKind::StackUnderflow);
    assert_eq!(kind(&[b'K', 1, 0x86]), ErrorKind::StackUnderflow);
    assert_eq!(kind(&[b'K', 1, b'K', 2, 0x87]), ErrorKind::StackUnderflow);
    assert_eq!(kind(&[b'(', 0x85]), ErrorKind::StackTypeMismatch);
    assert_eq!(kind(&[b'(', b'K', 1, 0x86]), ErrorKind::StackTypeMismatch);
    assert_eq!(kind(&[b'K', 1, b'(', b'K', 2, 0x87]), ErrorKind::StackTypeMismatch);
}

#[test]
fn appends_extends_the_list_in_order() {
    let got = decode(&[b']', b'(', b'K', 1, b'K', 2, b'K', 3, b'e']).unwrap();
    assert_eq!(got, Value::List(uints(1, 3)));
    let twice = decode(&[b']', b'(', b'K', 1, b'e', b'(', b'K', 2, b'K', 3, b'e']).unwrap();
    assert_eq!(twice, Value::List(uints(1, 3)));
    assert_eq!(decode(&[b']', b'(', b'e']).unwrap(), Value::List(vec![]));
}

#[test]
fn append_adds_one_item() {
    let got = decode(&[b']', b'K', 1, b'a', b'K', 2, b'a']).unwrap();
    assert_eq!(got, Value::List(uints(1, 2)));
    assert_eq!(kind(&[b'K', 1, b'a']), ErrorKind::StackUnderflow);
    assert_eq!(kind(&[b')', b'K', 1, b'a']), ErrorKind::StackTypeMismatch);
    assert_eq!(kind(&[b']', b'(', b'a']), ErrorKind::StackTypeMismatch);
}

#[test]
fn appends_needs_a_mark_above_a_list() {
    assert_eq!(kind(&[b']', b'K', 1, b'e']), ErrorKind::StackUnderflow);
    assert_eq!(kind(&[b'(', b'K', 1, b'e']), ErrorKind::StackUnderflow);
    assert_eq!(kind(&[b'}', b'(', b'K', 1, b'e']), ErrorKind::StackTypeMismatch);
}

fn text(s: &str) -> Vec<u8> {
    let mut out = vec![0x8c, s.len() as u8];
    out.extend_from_slice(s.as_bytes());
    out
}

fn set_items(pairs: &[(&str, u8)]) -> Vec<u8> {
    let mut body = vec![b'}', b'('];
    for (k, v) in pairs {
        body.extend_from_slice(&text(k));
        body.extend_from_slice(&[b'K', *v]);
    }
    body.push(b'u');
    body
}

#[test]
fn setitems_maps_each_key_to_its_value() {
    for k in 0..6usize {
        let names = ["a", "b", "c", "d", "e", "f"];
        let pairs: Vec<(&str, u8)> = (0..k).map(|i| (names[i], i as u8)).collect();
        let dict = decode(&set_items(&pairs)).unwrap().as_dict().unwrap();
        assert_eq!(dict.len(), k);
        for (name, v) in &pairs {
            let key = Value::String(name.to_string());
            assert_eq!(dict.get(&key), Some(&Value::UInt(*v as u32)));
        }
        assert_eq!(dict.get(&Value::String("zz".to_string())), None);
    }
}

#[test]
fn setitems_lets_the_later_pair_win() {
    let dict = decode(&set_items(&[("a", 1), ("b", 2), ("a", 3)]))
        .unwrap()
        .as_dict()
        .unwrap();
    assert_eq!(dict.len(), 2);
    assert_eq!(dict.get(&Value::String("a".to_string())), Some(&Value::UInt(3)));
    assert_eq!(dict.get(&Value::String("b".to_string())), Some(&Value::UInt(2)));
    assert_eq!(dict.key_at(0), &Value::String("a".to_string()));
    assert_eq!(dict.key_at(1), &Value::String("b".to_string()));
}

#[test]
fn setitems_does_not_depend_on_the_order_of_the_pairs() {
    let forward = decode(&set_items(&[("a", 1), ("b", 2), ("c", 3), ("d", 4)])).unwrap();
    let backward = decode(&set_items(&[("d", 4), ("c", 3), ("b", 2), ("a", 1)])).unwrap();
    let mixed = decode(&set_items(&[("c", 3), ("a", 9), ("d", 4), ("a", 1), ("b", 2)])).unwrap();
    assert_eq!(forward, backward);
    assert_eq!(forward, mixed);
    assert_eq!(forward.to_string(), "{'a': 1, 'b': 2, 'c': 3, 'd': 4}");
}

#[test]
fn setitems_merges_into_what_the_mapping_holds() {
    let mut body = set_items(&[("a", 1), ("b", 2)]);
    body.push(b'(');
    body.extend_from_slice(&text("b"));
    body.extend_from_slice(&[b'K', 9]);
    body.extend_from_slice(&text("c"));
    body.extend_from_slice(&[b'K', 3, b'u']);
    let dict = decode(&body).unwrap().as_dict().unwrap();
    let mut expected = Dict::new();
    expected.insert(Value::String("a".to_string()), Value::UInt(1));
    expected.insert(Value::String("b".to_string()), Value::UInt(9));
    expected.insert(Value::String("c".to_string()), Value::UInt(3));
    assert_eq!(dict, expected);
}

#[test]
fn setitems_takes_keys_of_any_shape() {
    // { ( K1 K2 ) : True, 7 : None }
    let body = [
        b'}', b'(', b'K', 1, b'K', 2, 0x86, 0x88, b'K', 7, b'N', b'u',
    ];
    let dict = decode(&body).unwrap().as_dict().unwrap();
    assert_eq!(dict.len(), 2);
    assert_eq!(dict.get(&Value::Tuple(uints(1, 2))), Some(&Value::Bool(true)));
    assert_eq!(dict.get(&Value::UInt(7)), Some(&Value::Nil));
    assert_eq!(dict.get(&Value::Int(7)), None);
}

#[test]
fn setitems_needs_pairs_above_a_mapping() {
    assert_eq!(kind(&[b'}', b'K', 1, b'K', 2, b'u']), ErrorKind::StackUnderflow);
    assert_eq!(kind(&[b'(', b'K', 1, b'K', 2, b'u']), ErrorKind::StackUnderflow);
    assert_eq!(kind(&[b'}', b'(', b'K', 1, b'u']), ErrorKind::StackUnderflow);
    assert_eq!(kind(&[b']', b'(', b'K', 1, b'K', 2, b'u']), ErrorKind::StackTypeMismatch);
}

#[test]
fn empty_containers() {
    assert_eq!(decode(&[b']']).unwrap(), Value::List(vec![]));
    assert_eq!(decode(&[b')']).unwrap(), Value::Tuple(vec![]));
    assert_eq!(decode(&[b'}']).unwrap(), Value::Dict(Dict::new()));
    assert_ne!(decode(&[b']']).unwrap(), Value::Tuple(vec![]));
}
