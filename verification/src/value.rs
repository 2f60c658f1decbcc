//! Decoded values: scalars, containers, object placeholders.
//!
//! A [`Value`] is pure data. Its meaning is its model, `value@`, a
//! [`Val`]; equality, copying and every contract go by the model.

use crate::error::ErrorKind;
use crate::mapping::{
    has_key, is_place, lemma_lookup_at, lemma_place_exists, lemma_place_unique, lemma_put,
    lemma_sorted_distinct, lookup, place, position, put, put_all, sorted_keys, text_keys,
};
use crate::model::{
    all_mark_free, entries_mark_free, instance_mark_free, lemma_mark_free, mark_free,
    InstanceVal, Val,
};
use crate::order::{lemma_irreflexive, lemma_total, lemma_transitive, lt};
use vstd::prelude::*;

verus! {

/// A mapping from values to values.
///
/// Entries are kept in the order of their keys, and no key occurs twice: the
/// order in which entries were inserted leaves no trace.
#[derive(Debug)]
pub struct Dict {
    entries: Vec<(Value, Value)>,
}

/// An object of a foreign type, under reconstruction or rebuilt as far as the
/// stream describes it.
#[derive(Debug)]
pub struct Instance {
    name: String,
    module: String,
    fields: Dict,
    pub args: Vec<Value>,
    pub kwargs: Option<Dict>,
}

/// A decoded value.
#[derive(Debug)]
pub enum Value {
    Bool(bool),
    String(String),
    Int(i32),
    UInt(u32),
    Long(i128),
    ULong(u128),
    /// A 64-bit IEEE-754 number, held as its bit pattern.
    Float(u64),
    Tuple(Vec<Value>),
    List(Vec<Value>),
    Dict(Dict),
    Bytes(Vec<u8>),
    Object(Instance),
    /// A reconstruction request that no registered transform took.
    Callable(Instance, Box<Value>),
    /// The stack sentinel that delimits a run of operands.
    Mark,
    /// The absent value.
    Nil,
}

/// The models of a sequence of values.
pub open spec fn values_view(s: Seq<Value>) -> Seq<Val>
    decreases s,
{
    Seq::new(
        s.len(),
        |i: int|
            if 0 <= i < s.len() {
                s[i].view()
            } else {
                Val::Nil
            },
    )
}

/// The models of a sequence of entries.
pub open spec fn entries_view(s: Seq<(Value, Value)>) -> Seq<(Val, Val)>
    decreases s,
{
    Seq::new(
        s.len(),
        |i: int|
            if 0 <= i < s.len() {
                (s[i].0.view(), s[i].1.view())
            } else {
                (Val::Nil, Val::Nil)
            },
    )
}

impl Value {
    /// The model of the value.
    pub open spec fn view(&self) -> Val
        decreases self,
    {
        match self {
            Value::Bool(b) => Val::Bool(*b),
            Value::String(s) => Val::String(s@),
            Value::Int(i) => Val::Int(*i),
            Value::UInt(u) => Val::UInt(*u),
            Value::Long(l) => Val::Long(*l),
            Value::ULong(u) => Val::ULong(*u),
            Value::Float(bits) => Val::Float(*bits),
            Value::Tuple(items) => Val::Tuple(values_view(items@)),
            Value::List(items) => Val::List(values_view(items@)),
            Value::Dict(d) => Val::Dict(d.view()),
            Value::Bytes(b) => Val::Bytes(b@),
            Value::Object(inst) => Val::Object(inst.view()),
            Value::Callable(inst, arg) => Val::Callable(inst.view(), Box::new(arg.view())),
            Value::Mark => Val::Mark,
            Value::Nil => Val::Nil,
        }
    }
}

impl Dict {
    /// The entries, in the order of their keys.
    pub closed spec fn view(&self) -> Seq<(Val, Val)>
        decreases self,
    {
        entries_view(self.entries@)
    }

    #[verifier::type_invariant]
    spec fn keys_occur_once(&self) -> bool {
        sorted_keys(entries_view(self.entries@))
    }
}

impl Instance {
    /// The model of the placeholder.
    pub closed spec fn view(&self) -> InstanceVal
        decreases self,
    {
        InstanceVal {
            name: self.name@,
            module: self.module@,
            fields: self.fields.view(),
            args: values_view(self.args@),
            kwargs: match self.kwargs {
                Some(d) => Some(d.view()),
                None => None,
            },
        }
    }
}

/// Copies a sequence of values.
pub fn dup_values(items: &Vec<Value>) -> (out: Vec<Value>)
    ensures
        values_view(out@) == values_view(items@),
    decreases items,
{
    let mut out: Vec<Value> = Vec::new();
    let mut i: usize = 0;
    while i < items.len()
        invariant
            i <= items.len(),
            out@.len() == i,
            forall|j: int| 0 <= j < i ==> out@[j]@ == items@[j]@,
        decreases items.len() - i,
    {
        let item = items[i].dup();
        out.push(item);
        i += 1;
    }
    assert(values_view(out@) =~= values_view(items@));
    out
}

/// Compares two sequences of values, item by item.
pub fn same_values(a: &Vec<Value>, b: &Vec<Value>) -> (r: bool)
    ensures
        r == (values_view(a@) == values_view(b@)),
    decreases a,
{
    if a.len() != b.len() {
        assert(values_view(a@).len() != values_view(b@).len());
        return false;
    }
    let mut i: usize = 0;
    while i < a.len()
        invariant
            i <= a.len(),
            a.len() == b.len(),
            forall|j: int| 0 <= j < i ==> a@[j]@ == b@[j]@,
        decreases a.len() - i,
    {
        if !a[i].same(&b[i]) {
            assert(values_view(a@)[i as int] != values_view(b@)[i as int]);
            return false;
        }
        i += 1;
    }
    assert(values_view(a@) =~= values_view(b@));
    true
}

/// Whether the mark sentinel occurs nowhere in a sequence of values.
pub fn values_mark_free(items: &Vec<Value>) -> (r: bool)
    ensures
        r == all_mark_free(values_view(items@)),
    decreases items,
{
    let mut i: usize = 0;
    while i < items.len()
        invariant
            i <= items.len(),
            forall|j: int| 0 <= j < i ==> mark_free(items@[j]@),
        decreases items.len() - i,
    {
        if !items[i].is_mark_free() {
            assert(!mark_free(values_view(items@)[i as int]));
            return false;
        }
        i += 1;
    }
    assert forall|j: int| 0 <= j < values_view(items@).len() implies mark_free(
        #[trigger] values_view(items@)[j],
    ) by {
        assert(mark_free(items@[j]@));
    }
    true
}

impl Dict {
    /// A mapping without entries.
    pub fn new() -> (d: Dict)
        ensures
            d@ == Seq::<(Val, Val)>::empty(),
    {
        let d = Dict { entries: Vec::new() };
        assert(d@ =~= Seq::<(Val, Val)>::empty());
        d
    }

    /// The number of entries.
    pub fn len(&self) -> (n: usize)
        ensures
            n == self@.len(),
            sorted_keys(self@),
    {
        proof {
            use_type_invariant(self);
        }
        self.entries.len()
    }

    /// The key of the entry at `index`, in the order of the keys.
    pub fn key_at(&self, index: usize) -> (key: &Value)
        requires
            index < self@.len(),
        ensures
            key@ == self@[index as int].0,
            decreases_to!(self => key),
    {
        &self.entries[index].0
    }

    /// The value of the entry at `index`, in the order of the keys.
    pub fn value_at(&self, index: usize) -> (value: &Value)
        requires
            index < self@.len(),
        ensures
            value@ == self@[index as int].1,
            decreases_to!(self => value),
    {
        &self.entries[index].1
    }

    /// Where `key` stands among the entries, and whether an entry with that
    /// key stands there.
    fn locate(&self, key: &Value) -> (r: (usize, bool))
        ensures
            r.1 == has_key(self@, key@),
            r.1 ==> r.0 < self@.len() && r.0 == position(self@, key@),
            !r.1 ==> r.0 <= self@.len() && r.0 == place(self@, key@) && is_place(
                self@,
                key@,
                r.0 as int,
            ),
    {
        proof {
            use_type_invariant(self);
            lemma_sorted_distinct(self@);
        }
        let mut i: usize = 0;
        while i < self.entries.len() && self.entries[i].0.before(key)
            invariant
                i <= self.entries.len(),
                forall|j: int| 0 <= j < i ==> lt((#[trigger] self@[j]).0, key@),
            decreases self.entries.len() - i,
        {
            i += 1;
        }
        if i < self.entries.len() && self.entries[i].0.same(key) {
            proof {
                assert(self@[i as int].0 == key@);
                lemma_lookup_at(self@, i as int);
            }
            return (i, true);
        }
        proof {
            assert forall|j: int| i <= j < self@.len() implies lt(
                key@,
                (#[trigger] self@[j]).0,
            ) by {
                lemma_total(self@[i as int].0, key@);
                if i < j {
                    assert(lt(self@[i as int].0, self@[j].0));
                    lemma_transitive(key@, self@[i as int].0, self@[j].0);
                }
            }
            assert(is_place(self@, key@, i as int));
            if has_key(self@, key@) {
                let p = position(self@, key@);
                lemma_irreflexive(key@);
                if p < i {
                    assert(lt(self@[p].0, key@));
                } else {
                    assert(lt(key@, self@[p].0));
                }
            }
            lemma_place_exists(self@, key@);
            lemma_place_unique(self@, key@, i as int, place(self@, key@));
        }
        (i, false)
    }

    /// Where the entry with the key `key` stands, if there is one.
    fn find(&self, key: &Value) -> (r: Option<usize>)
        ensures
            r.is_some() == has_key(self@, key@),
            r matches Some(i) ==> i < self@.len() && i == position(self@, key@),
    {
        let (i, found) = self.locate(key);
        if found {
            Some(i)
        } else {
            None
        }
    }

    /// Whether `key` is mapped to a value.
    pub fn contains_key(&self, key: &Value) -> (r: bool)
        ensures
            r == has_key(self@, key@),
    {
        self.find(key).is_some()
    }

    /// The value that `key` is mapped to.
    pub fn get(&self, key: &Value) -> (r: Option<&Value>)
        ensures
            match r {
                Some(value) => lookup(self@, key@) == Some(value@),
                None => lookup(self@, key@).is_none(),
            },
    {
        match self.find(key) {
            Some(i) => Some(&self.entries[i].1),
            None => None,
        }
    }

    /// Maps `key` to `value`. An entry with an equal key gets the new value;
    /// a new key gets an entry at its place in the order of the keys.
    pub fn insert(&mut self, key: Value, value: Value)
        ensures
            final(self)@ == put(old(self)@, key@, value@),
            sorted_keys(final(self)@),
    {
        proof {
            use_type_invariant(&*self);
            lemma_put(self@, key@, value@);
        }
        let ghost before = self@;
        let ghost k = key@;
        let ghost v = value@;
        let (at, found) = self.locate(&key);
        let mut entries: Vec<(Value, Value)> = Vec::new();
        core::mem::swap(&mut self.entries, &mut entries);
        if found {
            entries.set(at, (key, value));
        } else {
            entries.insert(at, (key, value));
        }
        assert(entries_view(entries@) =~= put(before, k, v));
        self.entries = entries;
    }

    /// Copies the mapping.
    pub fn dup(&self) -> (r: Dict)
        ensures
            r@ == self@,
        decreases self,
    {
        let mut out: Vec<(Value, Value)> = Vec::new();
        let mut i: usize = 0;
        while i < self.entries.len()
            invariant
                i <= self.entries.len(),
                out@.len() == i,
                forall|j: int|
                    0 <= j < i ==> out@[j].0@ == self.entries@[j].0@ && out@[j].1@
                        == self.entries@[j].1@,
            decreases self.entries.len() - i,
        {
            let key = self.entries[i].0.dup();
            let value = self.entries[i].1.dup();
            out.push((key, value));
            i += 1;
        }
        proof {
            use_type_invariant(self);
            assert(entries_view(out@) =~= entries_view(self.entries@));
        }
        Dict { entries: out }
    }

    /// Whether two mappings hold the same entries in the same order.
    pub fn same(&self, other: &Dict) -> (r: bool)
        ensures
            r == (self@ == other@),
        decreases self,
    {
        if self.entries.len() != other.entries.len() {
            assert(self@.len() != other@.len());
            return false;
        }
        let mut i: usize = 0;
        while i < self.entries.len()
            invariant
                i <= self.entries.len(),
                self.entries.len() == other.entries.len(),
                forall|j: int| 0 <= j < i ==> self@[j] == other@[j],
            decreases self.entries.len() - i,
        {
            if !self.entries[i].0.same(&other.entries[i].0) || !self.entries[i].1.same(
                &other.entries[i].1,
            ) {
                assert(self@[i as int] != other@[i as int]);
                return false;
            }
            i += 1;
        }
        assert(self@ =~= other@);
        true
    }

    /// Whether every key is text.
    pub fn has_text_keys(&self) -> (r: bool)
        ensures
            r == text_keys(self@),
    {
        let mut i: usize = 0;
        while i < self.entries.len()
            invariant
                i <= self.entries.len(),
                forall|j: int| 0 <= j < i ==> (#[trigger] self@[j]).0 is String,
            decreases self.entries.len() - i,
        {
            match &self.entries[i].0 {
                Value::String(_) => {},
                _ => {
                    assert(!(self@[i as int].0 is String));
                    return false;
                },
            }
            i += 1;
        }
        true
    }

    /// Whether the mark sentinel occurs nowhere in the mapping.
    pub fn is_mark_free(&self) -> (r: bool)
        ensures
            r == entries_mark_free(self@),
        decreases self,
    {
        let mut i: usize = 0;
        while i < self.entries.len()
            invariant
                i <= self.entries.len(),
                forall|j: int|
                    0 <= j < i ==> mark_free((#[trigger] self@[j]).0) && mark_free(self@[j].1),
            decreases self.entries.len() - i,
        {
            if !self.entries[i].0.is_mark_free() || !self.entries[i].1.is_mark_free() {
                assert(!(mark_free(self@[i as int].0) && mark_free(self@[i as int].1)));
                return false;
            }
            i += 1;
        }
        true
    }
}

impl Instance {
    /// A placeholder for the type `name` of `module`, without arguments or
    /// fields.
    pub fn new(name: String, module: String) -> (inst: Instance)
        ensures
            inst@ == InstanceVal::fresh(name@, module@),
    {
        let inst = Instance { name, module, fields: Dict::new(), args: Vec::new(), kwargs: None };
        assert(inst@.args =~= Seq::<Val>::empty());
        inst
    }

    /// The type name.
    pub fn name(&self) -> (r: String)
        ensures
            r@ == self@.name,
    {
        self.name.clone()
    }

    /// The type name, borrowed.
    pub fn name_str(&self) -> (r: &str)
        ensures
            r@ == self@.name,
    {
        self.name.as_str()
    }

    /// The module, borrowed.
    pub fn module_str(&self) -> (r: &str)
        ensures
            r@ == self@.module,
    {
        self.module.as_str()
    }

    /// The module (namespace) that the type lives in.
    pub fn module(&self) -> (r: String)
        ensures
            r@ == self@.module,
    {
        self.module.clone()
    }

    /// The key under which a transform for this type is registered: module,
    /// a dot, name.
    pub fn as_key(&self) -> (key: String)
        ensures
            key@ == self@.key(),
    {
        qualified_name(self.module.as_str(), self.name.as_str())
    }

    /// The fields that were set so far.
    pub fn fields(&self) -> (fields: &Dict)
        ensures
            fields@ == self@.fields,
            decreases_to!(self => fields),
    {
        &self.fields
    }

    /// The constructor arguments.
    pub fn args(&self) -> (args: &Vec<Value>)
        ensures
            values_view(args@) == self@.args,
            decreases_to!(self => args),
    {
        &self.args
    }

    /// The keyword arguments, if any were given.
    pub fn kwargs(&self) -> (kwargs: Option<&Dict>)
        ensures
            match kwargs {
                Some(d) => self@.kwargs == Some(d@) && decreases_to!(self => d),
                None => self@.kwargs.is_none(),
            },
    {
        match &self.kwargs {
            Some(d) => Some(d),
            None => None,
        }
    }

    /// Replaces the constructor arguments.
    pub fn set_args(&mut self, args: Vec<Value>)
        ensures
            final(self)@ == (InstanceVal { args: values_view(args@), ..old(self)@ }),
    {
        self.args = args;
    }

    /// Merges a decoded state into the fields, entry by entry in its order; a
    /// field that is set again gets the new value. A state with a key that is
    /// not text is rejected as a whole.
    pub fn set_fields(&mut self, new_fields: Dict) -> (r: Result<(), ErrorKind>)
        ensures
            match r {
                Ok(_) => text_keys(new_fields@) && final(self)@ == (InstanceVal {
                    fields: put_all(old(self)@.fields, new_fields@),
                    ..old(self)@
                }),
                Err(e) => e == ErrorKind::MalformedFieldKey && !text_keys(new_fields@)
                    && final(self)@ == old(self)@,
            },
    {
        if !new_fields.has_text_keys() {
            return Err(ErrorKind::MalformedFieldKey);
        }
        let ghost pairs = new_fields@;
        let ghost before = self@;
        let mut reversed = reversed(new_fields.entries);
        let ghost total = reversed@.len();
        assert(entries_view(reversed@).reverse() =~= pairs);
        assert(pairs.take(0) =~= Seq::<(Val, Val)>::empty());
        while reversed.len() > 0
            invariant
                total == pairs.len(),
                reversed@.len() <= total,
                forall|j: int|
                    0 <= j < reversed@.len() ==> (#[trigger] reversed@[j]).0@ == pairs[total - 1
                        - j].0 && reversed@[j].1@ == pairs[total - 1 - j].1,
                self@ == (InstanceVal {
                    fields: put_all(before.fields, pairs.take(total - reversed@.len())),
                    ..before
                }),
            decreases reversed.len(),
        {
            let ghost done = total - reversed@.len();
            let (key, value) = reversed.pop().unwrap();
            proof {
                assert(pairs.take(done + 1).drop_last() =~= pairs.take(done));
                assert(pairs.take(done + 1).last() == pairs[done]);
            }
            self.fields.insert(key, value);
        }
        assert(pairs.take(total as int) =~= pairs);
        Ok(())
    }

    /// Copies the placeholder.
    pub fn dup(&self) -> (r: Instance)
        ensures
            r@ == self@,
        decreases self,
    {
        Instance {
            name: self.name.clone(),
            module: self.module.clone(),
            fields: self.fields.dup(),
            args: dup_values(&self.args),
            kwargs: match &self.kwargs {
                Some(d) => Some(d.dup()),
                None => None,
            },
        }
    }

    /// Whether two placeholders are structurally equal.
    pub fn same(&self, other: &Instance) -> (r: bool)
        ensures
            r == (self@ == other@),
        decreases self,
    {
        let kwargs_same = match (&self.kwargs, &other.kwargs) {
            (Some(a), Some(b)) => a.same(b),
            (None, None) => true,
            _ => false,
        };
        kwargs_same && self.name == other.name && self.module == other.module && self.fields.same(
            &other.fields,
        ) && same_values(&self.args, &other.args)
    }

    /// Whether the mark sentinel occurs nowhere in the placeholder.
    pub fn is_mark_free(&self) -> (r: bool)
        ensures
            r == instance_mark_free(self@),
        decreases self,
    {
        let kwargs_free = match &self.kwargs {
            Some(d) => d.is_mark_free(),
            None => true,
        };
        kwargs_free && self.fields.is_mark_free() && values_mark_free(&self.args)
    }
}

/// Module, a dot, name.
pub fn qualified_name(module: &str, name: &str) -> (key: String)
    ensures
        key@ == module@ + seq!['.'] + name@,
{
    let mut key = String::from_str(module);
    proof {
        reveal_strlit(".");
        assert("."@ =~= seq!['.']);
    }
    key.append(".");
    key.append(name);
    key
}

/// The items in reverse order.
pub fn reversed<T>(items: Vec<T>) -> (out: Vec<T>)
    ensures
        out@ == items@.reverse(),
{
    let mut items = items;
    let ghost all = items@;
    let mut out: Vec<T> = Vec::new();
    while items.len() > 0
        invariant
            items@.len() + out@.len() == all.len(),
            items@ == all.take(items@.len() as int),
            forall|j: int| 0 <= j < out@.len() ==> out@[j] == all[all.len() - 1 - j],
        decreases items.len(),
    {
        let item = items.pop().unwrap();
        out.push(item);
    }
    assert(out@ =~= all.reverse());
    out
}

impl Value {
    /// The boolean, if the value is one.
    pub fn as_bool(self) -> (r: Option<bool>)
        ensures
            r == (match self@ {
                Val::Bool(b) => Some(b),
                _ => None,
            }),
    {
        if let Value::Bool(x) = self {
            Some(x)
        } else {
            None
        }
    }

    /// The text, if the value is text.
    pub fn as_string(self) -> (r: Option<String>)
        ensures
            match r {
                Some(s) => self@ == Val::String(s@),
                None => !(self@ is String),
            },
    {
        if let Value::String(x) = self {
            Some(x)
        } else {
            None
        }
    }

    /// The unsigned 32-bit integer, if the value is one.
    pub fn as_uint(self) -> (r: Option<u32>)
        ensures
            r == (match self@ {
                Val::UInt(u) => Some(u),
                _ => None,
            }),
    {
        if let Value::UInt(x) = self {
            Some(x)
        } else {
            None
        }
    }

    /// The signed 32-bit integer, if the value is one.
    pub fn as_int(self) -> (r: Option<i32>)
        ensures
            r == (match self@ {
                Val::Int(i) => Some(i),
                _ => None,
            }),
    {
        if let Value::Int(x) = self {
            Some(x)
        } else {
            None
        }
    }

    /// The unsigned wide integer, if the value is one.
    pub fn as_ulong(self) -> (r: Option<u128>)
        ensures
            r == (match self@ {
                Val::ULong(u) => Some(u),
                _ => None,
            }),
    {
        if let Value::ULong(x) = self {
            Some(x)
        } else {
            None
        }
    }

    /// The signed wide integer, if the value is one.
    pub fn as_long(self) -> (r: Option<i128>)
        ensures
            r == (match self@ {
                Val::Long(l) => Some(l),
                _ => None,
            }),
    {
        if let Value::Long(x) = self {
            Some(x)
        } else {
            None
        }
    }

    /// The bit pattern of the floating-point number, if the value is one.
    pub fn as_float_bits(self) -> (r: Option<u64>)
        ensures
            r == (match self@ {
                Val::Float(bits) => Some(bits),
                _ => None,
            }),
    {
        if let Value::Float(x) = self {
            Some(x)
        } else {
            None
        }
    }

    /// The raw bytes, if the value is a byte string.
    pub fn as_bytes(self) -> (r: Option<Vec<u8>>)
        ensures
            match r {
                Some(b) => self@ == Val::Bytes(b@),
                None => !(self@ is Bytes),
            },
    {
        if let Value::Bytes(x) = self {
            Some(x)
        } else {
            None
        }
    }

    /// The elements, if the value is a tuple.
    pub fn as_tuple(self) -> (r: Option<Vec<Value>>)
        ensures
            match r {
                Some(items) => self@ == Val::Tuple(values_view(items@)),
                None => !(self@ is Tuple),
            },
    {
        if let Value::Tuple(x) = self {
            Some(x)
        } else {
            None
        }
    }

    /// The elements, if the value is a list.
    pub fn as_list(self) -> (r: Option<Vec<Value>>)
        ensures
            match r {
                Some(items) => self@ == Val::List(values_view(items@)),
                None => !(self@ is List),
            },
    {
        if let Value::List(x) = self {
            Some(x)
        } else {
            None
        }
    }

    /// The mapping, if the value is one.
    pub fn as_dict(self) -> (r: Option<Dict>)
        ensures
            match r {
                Some(d) => self@ == Val::Dict(d@),
                None => !(self@ is Dict),
            },
    {
        if let Value::Dict(x) = self {
            Some(x)
        } else {
            None
        }
    }

    /// The placeholder, if the value is an object.
    pub fn as_instance(self) -> (r: Option<Instance>)
        ensures
            match r {
                Some(inst) => self@ == Val::Object(inst@),
                None => !(self@ is Object),
            },
    {
        if let Value::Object(x) = self {
            Some(x)
        } else {
            None
        }
    }

    /// Whether the value is text.
    pub fn is_string(&self) -> (r: bool)
        ensures
            r == (self@ is String),
    {
        match self {
            Value::String(_) => true,
            _ => false,
        }
    }

    /// Whether the value is a tuple.
    pub fn is_tuple(&self) -> (r: bool)
        ensures
            r == (self@ is Tuple),
    {
        match self {
            Value::Tuple(_) => true,
            _ => false,
        }
    }

    /// Whether the value is a list.
    pub fn is_list(&self) -> (r: bool)
        ensures
            r == (self@ is List),
    {
        match self {
            Value::List(_) => true,
            _ => false,
        }
    }

    /// Whether the value is a mapping.
    pub fn is_dict(&self) -> (r: bool)
        ensures
            r == (self@ is Dict),
    {
        match self {
            Value::Dict(_) => true,
            _ => false,
        }
    }

    /// Whether the value is an object placeholder.
    pub fn is_object(&self) -> (r: bool)
        ensures
            r == (self@ is Object),
    {
        match self {
            Value::Object(_) => true,
            _ => false,
        }
    }

    /// Whether the value is the mark sentinel.
    pub fn is_mark(&self) -> (r: bool)
        ensures
            r == (self@ is Mark),
    {
        match self {
            Value::Mark => true,
            _ => false,
        }
    }

    /// Copies the value.
    pub fn dup(&self) -> (r: Value)
        ensures
            r@ == self@,
        decreases self,
    {
        match self {
            Value::Bool(b) => Value::Bool(*b),
            Value::String(s) => Value::String(s.clone()),
            Value::Int(i) => Value::Int(*i),
            Value::UInt(u) => Value::UInt(*u),
            Value::Long(l) => Value::Long(*l),
            Value::ULong(u) => Value::ULong(*u),
            Value::Float(bits) => Value::Float(*bits),
            Value::Tuple(items) => Value::Tuple(dup_values(items)),
            Value::List(items) => Value::List(dup_values(items)),
            Value::Dict(d) => Value::Dict(d.dup()),
            Value::Bytes(b) => Value::Bytes(b.clone()),
            Value::Object(inst) => Value::Object(inst.dup()),
            Value::Callable(inst, arg) => Value::Callable(inst.dup(), Box::new(arg.dup())),
            Value::Mark => Value::Mark,
            Value::Nil => Value::Nil,
        }
    }

    /// Whether two values are structurally equal: of the same case, with
    /// equal contents.
    pub fn same(&self, other: &Value) -> (r: bool)
        ensures
            r == (self@ == other@),
        decreases self,
    {
        match self {
            Value::Bool(a) => match other {
                Value::Bool(b) => *a == *b,
                _ => false,
            },
            Value::String(a) => match other {
                Value::String(b) => *a == *b,
                _ => false,
            },
            Value::Int(a) => match other {
                Value::Int(b) => *a == *b,
                _ => false,
            },
            Value::UInt(a) => match other {
                Value::UInt(b) => *a == *b,
                _ => false,
            },
            Value::Long(a) => match other {
                Value::Long(b) => *a == *b,
                _ => false,
            },
            Value::ULong(a) => match other {
                Value::ULong(b) => *a == *b,
                _ => false,
            },
            Value::Float(a) => match other {
                Value::Float(b) => *a == *b,
                _ => false,
            },
            Value::Tuple(a) => match other {
                Value::Tuple(b) => same_values(a, b),
                _ => false,
            },
            Value::List(a) => match other {
                Value::List(b) => same_values(a, b),
                _ => false,
            },
            Value::Dict(a) => match other {
                Value::Dict(b) => a.same(b),
                _ => false,
            },
            Value::Bytes(a) => match other {
                Value::Bytes(b) => same_bytes(a, b),
                _ => false,
            },
            Value::Object(a) => match other {
                Value::Object(b) => a.same(b),
                _ => false,
            },
            Value::Callable(f, x) => match other {
                Value::Callable(g, y) => f.same(g) && x.same(y),
                _ => false,
            },
            Value::Mark => match other {
                Value::Mark => true,
                _ => false,
            },
            Value::Nil => match other {
                Value::Nil => true,
                _ => false,
            },
        }
    }

    /// Whether the mark sentinel occurs nowhere in the value.
    pub fn is_mark_free(&self) -> (r: bool)
        ensures
            r == mark_free(self@),
        decreases self,
    {
        proof {
            lemma_mark_free(self@);
        }
        match self {
            Value::Mark => false,
            Value::Tuple(items) => values_mark_free(items),
            Value::List(items) => values_mark_free(items),
            Value::Dict(d) => d.is_mark_free(),
            Value::Object(inst) => inst.is_mark_free(),
            Value::Callable(inst, arg) => inst.is_mark_free() && arg.is_mark_free(),
            _ => true,
        }
    }
}

/// Whether two byte strings are equal.
pub fn same_bytes(a: &Vec<u8>, b: &Vec<u8>) -> (r: bool)
    ensures
        r == (a@ == b@),
{
    if a.len() != b.len() {
        return false;
    }
    let mut i: usize = 0;
    while i < a.len()
        invariant
            i <= a.len(),
            a.len() == b.len(),
            forall|j: int| 0 <= j < i ==> a@[j] == b@[j],
        decreases a.len() - i,
    {
        if a[i] != b[i] {
            return false;
        }
        i += 1;
    }
    assert(a@ =~= b@);
    true
}

impl Clone for Value {
    fn clone(&self) -> (r: Self)
        ensures
            r@ == self@,
    {
        self.dup()
    }
}

impl Clone for Dict {
    fn clone(&self) -> (r: Self)
        ensures
            r@ == self@,
    {
        self.dup()
    }
}

impl Clone for Instance {
    fn clone(&self) -> (r: Self)
        ensures
            r@ == self@,
    {
        self.dup()
    }
}

impl PartialEq for Value {
    fn eq(&self, other: &Self) -> (r: bool) {
        self.same(other)
    }
}

impl vstd::std_specs::cmp::PartialEqSpecImpl for Value {
    open spec fn obeys_eq_spec() -> bool {
        true
    }

    open spec fn eq_spec(&self, other: &Self) -> bool {
        self@ == other@
    }
}

impl PartialEq for Dict {
    fn eq(&self, other: &Self) -> (r: bool) {
        self.same(other)
    }
}

impl vstd::std_specs::cmp::PartialEqSpecImpl for Dict {
    open spec fn obeys_eq_spec() -> bool {
        true
    }

    open spec fn eq_spec(&self, other: &Self) -> bool {
        self@ == other@
    }
}

impl PartialEq for Instance {
    fn eq(&self, other: &Self) -> (r: bool) {
        self.same(other)
    }
}

impl vstd::std_specs::cmp::PartialEqSpecImpl for Instance {
    open spec fn obeys_eq_spec() -> bool {
        true
    }

    open spec fn eq_spec(&self, other: &Self) -> bool {
        self@ == other@
    }
}

} // verus!
