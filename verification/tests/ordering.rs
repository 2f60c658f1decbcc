use ricklepick::order::{bytes_before, text_before, text_same};
use ricklepick::value::{Dict, Instance, Value};

fn text(s: &str) -> Value {
    Value::String(s.to_string())
}

/// Values in ascending order.
fn ascending() -> Vec<Value> {
    let mut small = Dict::new();
    small.insert(Value::Int(1), Value::Int(1));
    let mut large = Dict::new();
    large.insert(Value::Int(1), Value::Int(2));
    let mut larger = Dict::new();
    larger.insert(Value::Int(2), Value::Int(0));
    let a = Instance::new("T".to_string(), "m".to_string());
    let b = Instance::new("U".to_string(), "m".to_string());
    let c = Instance::new("A".to_string(), "n".to_string());
    let mut d = c.clone();
    d.set_args(vec![Value::Nil]);
    let mut e = d.clone();
    e.kwargs = Some(Dict::new());
    vec![
        Value::Nil,
        Value::Bool(false),
        Value::Bool(true),
        Value::Int(i32::MIN),
        Value::Int(-1),
        Value::Int(0),
        Value::Int(i32::MAX),
        Value::UInt(0),
        Value::UInt(u32::MAX),
        Value::Long(i128::MIN),
        Value::Long(5),
        Value::ULong(0),
        Value::ULong(u128::MAX),
        Value::Float(0),
        Value::Float(1),
        text(""),
        text("a"),
        text("ab"),
        text("b"),
        text("\u{e9}"),
        Value::Bytes(vec![]),
        Value::Bytes(vec![0]),
        Value::Bytes(vec![0, 0]),
        Value::Bytes(vec![1]),
        Value::Tuple(vec![]),
        Value::Tuple(vec![Value::Int(1)]),
        Value::Tuple(vec![Value::Int(1), Value::Int(0)]),
        Value::Tuple(vec![Value::Int(2)]),
        Value::List(vec![]),
        Value::List(vec![Value::Tuple(vec![])]),
        Value::Dict(Dict::new()),
        Value::Dict(small),
        Value::Dict(large),
        Value::Dict(larger),
        Value::Object(a.clone()),
        Value::Object(b),
        Value::Object(c),
        Value::Object(d),
        Value::Object(e),
        Value::Callable(a.clone(), Box::new(Value::Int(1))),
        Value::Callable(a, Box::new(Value::Int(2))),
        Value::Mark,
    ]
}

#[test]
fn of_two_values_one_comes_first() {
    let values = ascending();
    for (i, a) in values.iter().enumerate() {
        for (j, b) in values.iter().enumerate() {
            assert_eq!(a.before(b), i < j, "{:?} before {:?}", a, b);
            assert_eq!(a.same(b), i == j, "{:?} same {:?}", a, b);
        }
    }
}

#[test]
fn texts_and_bytes_are_compared_byte_by_byte() {
    assert!(bytes_before(&[], &[0]));
    assert!(!bytes_before(&[], &[]));
    assert!(!bytes_before(&[0], &[]));
    assert!(bytes_before(&[1, 2], &[1, 3]));
    assert!(bytes_before(&[1, 2], &[1, 2, 0]));
    assert!(!bytes_before(&[2], &[1, 9]));
    assert!(text_before("a", "b"));
    assert!(text_before("Z", "a"));
    assert!(text_before("a", "aa"));
    assert!(!text_before("a", "a"));
    assert!(text_before("z", "\u{e9}"));
    assert!(text_same("", ""));
    assert!(text_same("caf\u{e9}", "caf\u{e9}"));
    assert!(!text_same("a", "b"));
    assert!(!text_same("a", "ab"));
}

#[test]
fn entries_stand_in_the_order_of_their_keys() {
    let values = ascending();
    let mut dict = Dict::new();
    for (i, v) in values.iter().enumerate().rev() {
        dict.insert(v.clone(), Value::UInt(i as u32));
    }
    for (i, v) in values.iter().enumerate().step_by(3) {
        dict.insert(v.clone(), Value::UInt(i as u32));
    }
    assert_eq!(dict.len(), values.len());
    for (i, v) in values.iter().enumerate() {
        assert_eq!(dict.key_at(i), v);
        assert_eq!(dict.value_at(i), &Value::UInt(i as u32));
        assert_eq!(dict.get(v), Some(&Value::UInt(i as u32)));
    }
}
