use ricklepick::value::{Dict, Instance, Value};

fn text(s: &str) -> Value {
    Value::String(s.to_string())
}

fn one_of_each() -> Vec<Value> {
    let mut dict = Dict::new();
    dict.insert(text("k"), Value::Int(1));
    let mut inst = Instance::new("T".to_string(), "m".to_string());
    inst.set_args(vec![Value::UInt(1)]);
    vec![
        Value::Bool(true),
        text("s"),
        Value::Int(-3),
        Value::UInt(3),
        Value::Long(-4),
        Value::ULong(4),
        Value::Float(0x3ff0_0000_0000_0000),
        Value::Tuple(vec![Value::Int(1), Value::Nil]),
        Value::List(vec![Value::Int(1), Value::Nil]),
        Value::Dict(dict),
        Value::Bytes(vec![1, 2]),
        Value::Object(inst.clone()),
        Value::Callable(inst, Box::new(Value::Nil)),
        Value::Mark,
        Value::Nil,
    ]
}

#[test]
fn a_value_equals_itself_and_its_copy_and_no_other_case() {
    let values = one_of_each();
    for (i, a) in values.iter().enumerate() {
        assert!(a.same(&a.dup()));
        assert_eq!(a, &a.clone());
        for (j, b) in values.iter().enumerate() {
            assert_eq!(a == b, i == j, "{:?} and {:?}", a, b);
        }
    }
}

#[test]
fn equality_goes_by_content() {
    assert_eq!(Value::Bytes(vec![1, 2]), Value::Bytes(vec![1, 2]));
    assert_ne!(Value::Bytes(vec![1, 2]), Value::Bytes(vec![1, 3]));
    assert_ne!(Value::Bytes(vec![1, 2]), Value::Bytes(vec![1, 2, 3]));
    // The same rendering is not the same value.
    assert_ne!(Value::Int(1), Value::UInt(1));
    assert_ne!(Value::Long(1), Value::ULong(1));
    assert_ne!(Value::Tuple(vec![Value::Int(1)]), Value::List(vec![Value::Int(1)]));
    assert_ne!(Value::Bytes(vec![0x11]), Value::Bytes(vec![1, 1]));
    assert_ne!(
        Value::Tuple(vec![text("a, b")]),
        Value::Tuple(vec![text("a"), text("b")])
    );
    assert_eq!(
        Value::Tuple(vec![Value::List(vec![text("a")]), Value::Nil]),
        Value::Tuple(vec![Value::List(vec![text("a")]), Value::Nil])
    );
    assert_ne!(
        Value::Tuple(vec![Value::List(vec![text("a")]), Value::Nil]),
        Value::Tuple(vec![Value::List(vec![text("b")]), Value::Nil])
    );
}

#[test]
fn placeholders_are_equal_when_all_they_hold_is() {
    let a = Instance::new("T".to_string(), "m".to_string());
    let mut b = Instance::new("T".to_string(), "m".to_string());
    assert_eq!(a, b);
    assert_eq!(Value::Object(a.clone()), Value::Object(b.clone()));
    assert_ne!(a, Instance::new("m".to_string(), "T".to_string()));
    b.set_args(vec![Value::Nil]);
    assert_ne!(a, b);
    let mut c = a.clone();
    c.kwargs = Some(Dict::new());
    assert_ne!(a, c);
    let mut d = a.clone();
    let mut fields = Dict::new();
    fields.insert(text("x"), Value::Nil);
    assert_eq!(d.set_fields(fields), Ok(()));
    assert_ne!(a, d);
    assert_eq!(d, d.clone());
}

#[test]
fn a_mapping_keeps_one_entry_for_each_key() {
    let mut dict = Dict::new();
    assert_eq!(dict.len(), 0);
    assert!(!dict.contains_key(&text("a")));
    dict.insert(text("a"), Value::Int(1));
    dict.insert(text("b"), Value::Int(2));
    dict.insert(Value::Tuple(vec![text("a")]), Value::Int(3));
    dict.insert(text("a"), Value::Int(4));
    assert_eq!(dict.len(), 3);
    assert_eq!(dict.get(&text("a")), Some(&Value::Int(4)));
    assert_eq!(dict.get(&text("b")), Some(&Value::Int(2)));
    assert_eq!(dict.get(&Value::Tuple(vec![text("a")])), Some(&Value::Int(3)));
    assert_eq!(dict.get(&Value::List(vec![text("a")])), None);
    assert!(dict.contains_key(&text("b")));
    assert_eq!(dict.key_at(0), &text("a"));
    assert_eq!(dict.value_at(0), &Value::Int(4));
    assert_eq!(dict.key_at(2), &Value::Tuple(vec![text("a")]));
    assert!(dict.has_text_keys() == false);
}

#[test]
fn the_order_of_insertion_leaves_no_trace() {
    let mut a = Dict::new();
    a.insert(text("x"), Value::Int(1));
    a.insert(text("y"), Value::Int(2));
    a.insert(Value::UInt(7), Value::Nil);
    let mut b = Dict::new();
    b.insert(Value::UInt(7), Value::Nil);
    b.insert(text("y"), Value::Int(0));
    b.insert(text("x"), Value::Int(1));
    b.insert(text("y"), Value::Int(2));
    assert_eq!(a, b);
    assert_eq!(Value::Dict(a.clone()), Value::Dict(b.clone()));
    assert_eq!(Value::Dict(a.clone()).to_string(), Value::Dict(b.clone()).to_string());
    assert_eq!(Value::Dict(a.clone()).to_string(), "{7: None, 'x': 1, 'y': 2}");
    for i in 0..3 {
        assert_eq!(a.key_at(i), b.key_at(i));
        assert_eq!(a.value_at(i), b.value_at(i));
    }
    // A mapping is a key like any other value, whatever the order it was filled in.
    let mut outer = Dict::new();
    outer.insert(Value::Dict(a), Value::Int(1));
    outer.insert(Value::Dict(b.clone()), Value::Int(2));
    assert_eq!(outer.len(), 1);
    assert_eq!(outer.get(&Value::Dict(b)), Some(&Value::Int(2)));
}

#[test]
fn mappings_are_compared_entry_by_entry() {
    let mut a = Dict::new();
    a.insert(text("x"), Value::Int(1));
    a.insert(text("y"), Value::Int(2));
    let mut b = Dict::new();
    b.insert(text("x"), Value::Int(0));
    b.insert(text("y"), Value::Int(2));
    assert_ne!(a, b);
    b.insert(text("x"), Value::Int(1));
    assert_eq!(a, b);
    assert_eq!(Value::Dict(a.clone()), Value::Dict(b.clone()));
    b.insert(text("z"), Value::Int(3));
    assert_ne!(a, b);
    assert_eq!(a.dup(), a);
}

#[test]
fn the_mark_is_found_at_any_depth() {
    for v in one_of_each() {
        assert_eq!(v.is_mark_free(), !v.is_mark());
    }
    let mut dict = Dict::new();
    dict.insert(text("k"), Value::List(vec![Value::Mark]));
    assert!(!Value::Dict(dict.clone()).is_mark_free());
    let mut keyed = Dict::new();
    keyed.insert(Value::Mark, Value::Nil);
    assert!(!keyed.is_mark_free());
    assert!(!Value::Tuple(vec![Value::Nil, Value::Tuple(vec![Value::Mark])]).is_mark_free());
    let mut inst = Instance::new("T".to_string(), "m".to_string());
    assert!(inst.is_mark_free());
    inst.set_args(vec![Value::Mark]);
    assert!(!inst.is_mark_free());
    let mut with_kwargs = Instance::new("T".to_string(), "m".to_string());
    with_kwargs.kwargs = Some(dict);
    assert!(!Value::Object(with_kwargs.clone()).is_mark_free());
    assert!(!Value::Callable(with_kwargs, Box::new(Value::Nil)).is_mark_free());
    let plain = Instance::new("T".to_string(), "m".to_string());
    assert!(!Value::Callable(plain, Box::new(Value::Mark)).is_mark_free());
}

#[test]
fn shape_tests() {
    assert!(text("a").is_string());
    assert!(Value::Tuple(vec![]).is_tuple());
    assert!(Value::List(vec![]).is_list());
    assert!(Value::Dict(Dict::new()).is_dict());
    assert!(Value::Object(Instance::new("T".to_string(), "m".to_string())).is_object());
    assert!(Value::Mark.is_mark());
    assert!(!Value::Nil.is_mark());
    assert!(!Value::List(vec![]).is_tuple());
    assert!(!Value::Tuple(vec![]).is_list());
}

#[test]
fn renderings() {
    assert_eq!(Value::Bool(true).to_string(), "True");
    assert_eq!(Value::Bool(false).to_string(), "False");
    assert_eq!(text("foo").to_string(), "'foo'");
    assert_eq!(Value::Int(0).to_string(), "0");
    assert_eq!(Value::Int(-1).to_string(), "-1");
    assert_eq!(Value::Int(i32::MIN).to_string(), "-2147483648");
    assert_eq!(Value::Int(i32::MAX).to_string(), "2147483647");
    assert_eq!(Value::UInt(u32::MAX).to_string(), "4294967295");
    assert_eq!(Value::UInt(10).to_string(), "10");
    assert_eq!(Value::Long(i128::MIN).to_string(), i128::MIN.to_string());
    assert_eq!(Value::Long(i128::MAX).to_string(), i128::MAX.to_string());
    assert_eq!(Value::Long(-1000).to_string(), "-1000");
    assert_eq!(Value::ULong(u128::MAX).to_string(), u128::MAX.to_string());
    assert_eq!(Value::ULong(907).to_string(), "907");
    assert_eq!(Value::Float(0x3ff0_0000_0000_0000).to_string(), "float(0x3ff0000000000000)");
    assert_eq!(Value::Float(0).to_string(), "float(0x0)");
    assert_eq!(Value::Bytes(vec![]).to_string(), "[]");
    assert_eq!(Value::Bytes(vec![0, 9, 10, 0xde, 0xff]).to_string(), "[0, 9, a, de, ff]");
    assert_eq!(Value::Tuple(vec![]).to_string(), "()");
    assert_eq!(Value::Tuple(vec![Value::Int(1)]).to_string(), "(1)");
    assert_eq!(
        Value::Tuple(vec![Value::Int(1), text("a"), Value::Nil]).to_string(),
        "(1, 'a', None)"
    );
    assert_eq!(
        Value::List(vec![Value::List(vec![]), Value::Bool(true)]).to_string(),
        "[[], True]"
    );
    assert_eq!(Value::Mark.to_string(), "Mark");
    assert_eq!(Value::Nil.to_string(), "None");
    let mut dict = Dict::new();
    assert_eq!(Value::Dict(dict.clone()).to_string(), "{}");
    dict.insert(text("b"), Value::Int(2));
    dict.insert(Value::Int(1), Value::Tuple(vec![]));
    assert_eq!(Value::Dict(dict.clone()).to_string(), "{1: (), 'b': 2}");
    let mut inst = Instance::new("T".to_string(), "m".to_string());
    assert_eq!(
        Value::Object(inst.clone()).to_string(),
        "<m.T object> (fields: {}, args: (), kwargs: None)"
    );
    let mut fields = Dict::new();
    fields.insert(text("x"), Value::Int(1));
    fields.insert(text("y"), text("z"));
    assert_eq!(inst.set_fields(fields), Ok(()));
    inst.set_args(vec![Value::Int(5), Value::Int(6)]);
    inst.kwargs = Some(dict);
    assert_eq!(inst.fields_to_string(), "x: 1, y: 'z'");
    assert_eq!(
        Value::Object(inst.clone()).to_string(),
        "<m.T object> (fields: {x: 1, y: 'z'}, args: (5, 6), kwargs: {1: (), 'b': 2})"
    );
    let plain = Instance::new("OrderedDict".to_string(), "collections".to_string());
    assert_eq!(
        Value::Callable(plain, Box::new(Value::Tuple(vec![Value::List(vec![])]))).to_string(),
        "*collections.OrderedDict(([]))"
    );
}
