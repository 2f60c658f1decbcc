//! The order of values.
//!
//! Values are ordered first by their case and then by their content, with
//! sequences compared item by item. The order is strict and total: of two
//! different values exactly one comes before the other. Mappings keep their
//! entries in this order of their keys, so that a mapping has one
//! representation whatever the order in which its entries were put.

use crate::model::{InstanceVal, Val};
use crate::value::{same_values, values_view, Dict, Instance, Value};
use vstd::prelude::*;
use vstd::utf8::{encode_utf8, encode_utf8_decode_utf8};

verus! {

/// Whether `a` comes before `b`, byte by byte; a proper prefix comes before
/// what it is a prefix of.
pub open spec fn bytes_lt(a: Seq<u8>, b: Seq<u8>, from: int) -> bool
    decreases a.len() - from,
{
    if from < 0 || from >= b.len() {
        false
    } else if from >= a.len() {
        true
    } else if a[from] == b[from] {
        bytes_lt(a, b, from + 1)
    } else {
        a[from] < b[from]
    }
}

/// Whether the text `a` comes before the text `b`: by their UTF-8 bytes.
pub open spec fn text_lt(a: Seq<char>, b: Seq<char>) -> bool {
    bytes_lt(encode_utf8(a), encode_utf8(b), 0)
}

/// The place of a value's case among the cases.
pub open spec fn rank(v: Val) -> int {
    match v {
        Val::Nil => 0,
        Val::Bool(_) => 1,
        Val::Int(_) => 2,
        Val::UInt(_) => 3,
        Val::Long(_) => 4,
        Val::ULong(_) => 5,
        Val::Float(_) => 6,
        Val::String(_) => 7,
        Val::Bytes(_) => 8,
        Val::Tuple(_) => 9,
        Val::List(_) => 10,
        Val::Dict(_) => 11,
        Val::Object(_) => 12,
        Val::Callable(_, _) => 13,
        Val::Mark => 14,
    }
}

/// Whether `a` comes before `b`.
pub open spec fn lt(a: Val, b: Val) -> bool
    decreases a,
{
    if rank(a) != rank(b) {
        rank(a) < rank(b)
    } else {
        match a {
            Val::Bool(x) => !x && b->Bool_0,
            Val::Int(x) => x < b->Int_0,
            Val::UInt(x) => x < b->UInt_0,
            Val::Long(x) => x < b->Long_0,
            Val::ULong(x) => x < b->ULong_0,
            Val::Float(x) => x < b->Float_0,
            Val::String(x) => text_lt(x, b->String_0),
            Val::Bytes(x) => bytes_lt(x, b->Bytes_0, 0),
            Val::Tuple(x) => items_lt(x, b->Tuple_0, 0),
            Val::List(x) => items_lt(x, b->List_0, 0),
            Val::Dict(x) => entries_lt(x, b->Dict_0, 0),
            Val::Object(x) => instance_lt(x, b->Object_0),
            Val::Callable(x, arg) => if x != b->Callable_0 {
                instance_lt(x, b->Callable_0)
            } else {
                lt(*arg, *b->Callable_1)
            },
            Val::Mark => false,
            Val::Nil => false,
        }
    }
}

/// Whether `a` comes before `b`, given that they agree before `from`: at the
/// first place where they differ the item of `a` comes first, or `a` ends
/// there and `b` does not.
pub open spec fn items_lt(a: Seq<Val>, b: Seq<Val>, from: int) -> bool
    decreases a, a.len() - from,
{
    if from < 0 || from >= b.len() {
        false
    } else if from >= a.len() {
        true
    } else if a[from] == b[from] {
        items_lt(a, b, from + 1)
    } else {
        lt(a[from], b[from])
    }
}

/// Whether the entries `a` come before the entries `b`, given that they agree
/// before `from`: entries are compared by key, then by value.
pub open spec fn entries_lt(a: Seq<(Val, Val)>, b: Seq<(Val, Val)>, from: int) -> bool
    decreases a, a.len() - from,
{
    if from < 0 || from >= b.len() {
        false
    } else if from >= a.len() {
        true
    } else if a[from] == b[from] {
        entries_lt(a, b, from + 1)
    } else if a[from].0 != b[from].0 {
        lt(a[from].0, b[from].0)
    } else {
        lt(a[from].1, b[from].1)
    }
}

/// Whether the placeholder `a` comes before the placeholder `b`: by module,
/// name, fields, arguments and keyword arguments, in this order.
pub open spec fn instance_lt(a: InstanceVal, b: InstanceVal) -> bool
    decreases a,
{
    if a.module != b.module {
        text_lt(a.module, b.module)
    } else if a.name != b.name {
        text_lt(a.name, b.name)
    } else if a.fields != b.fields {
        entries_lt(a.fields, b.fields, 0)
    } else if a.args != b.args {
        items_lt(a.args, b.args, 0)
    } else {
        match a.kwargs {
            None => b.kwargs is Some,
            Some(x) => match b.kwargs {
                None => false,
                Some(y) => entries_lt(x, y, 0),
            },
        }
    }
}

/// Whether the sequences agree before `from`.
pub open spec fn agree<A>(a: Seq<A>, b: Seq<A>, from: int) -> bool {
    forall|j: int| 0 <= j < from ==> a[j] == b[j]
}

// Bytes

/// No byte sequence comes before itself.
pub proof fn lemma_bytes_irreflexive(a: Seq<u8>, from: int)
    ensures
        !bytes_lt(a, a, from),
    decreases a.len() - from,
{
    if 0 <= from < a.len() {
        lemma_bytes_irreflexive(a, from + 1);
    }
}

/// Of two different byte sequences one comes before the other.
pub proof fn lemma_bytes_total(a: Seq<u8>, b: Seq<u8>, from: int)
    requires
        0 <= from <= a.len(),
        from <= b.len(),
        agree(a, b, from),
        a != b,
    ensures
        bytes_lt(a, b, from) || bytes_lt(b, a, from),
    decreases a.len() - from,
{
    if from >= a.len() && from >= b.len() {
        assert(a =~= b);
    } else if from < a.len() && from < b.len() && a[from] == b[from] {
        lemma_bytes_total(a, b, from + 1);
    }
}

/// What comes before something that comes before a third comes before the
/// third.
pub proof fn lemma_bytes_transitive(a: Seq<u8>, b: Seq<u8>, c: Seq<u8>, from: int)
    ensures
        bytes_lt(a, b, from) && bytes_lt(b, c, from) ==> bytes_lt(a, c, from),
    decreases a.len() - from,
{
    if 0 <= from < a.len() && from < b.len() && from < c.len() {
        lemma_bytes_transitive(a, b, c, from + 1);
    }
}

// Text

/// Different texts have different bytes.
pub proof fn lemma_text_bytes_differ(a: Seq<char>, b: Seq<char>)
    requires
        a != b,
    ensures
        encode_utf8(a) != encode_utf8(b),
{
    encode_utf8_decode_utf8(a);
    encode_utf8_decode_utf8(b);
}

/// The order of texts is strict and total.
pub proof fn lemma_text_order(a: Seq<char>, b: Seq<char>, c: Seq<char>)
    ensures
        !text_lt(a, a),
        a != b ==> text_lt(a, b) || text_lt(b, a),
        text_lt(a, b) && text_lt(b, c) ==> text_lt(a, c),
{
    lemma_bytes_irreflexive(encode_utf8(a), 0);
    if a != b {
        lemma_text_bytes_differ(a, b);
        lemma_bytes_total(encode_utf8(a), encode_utf8(b), 0);
    }
    lemma_bytes_transitive(encode_utf8(a), encode_utf8(b), encode_utf8(c), 0);
}

// Irreflexivity

/// No sequence of values comes before itself.
pub proof fn lemma_items_irreflexive(a: Seq<Val>, from: int)
    ensures
        !items_lt(a, a, from),
    decreases a.len() - from,
{
    if 0 <= from < a.len() {
        lemma_items_irreflexive(a, from + 1);
    }
}

/// No sequence of entries comes before itself.
pub proof fn lemma_entries_irreflexive(a: Seq<(Val, Val)>, from: int)
    ensures
        !entries_lt(a, a, from),
    decreases a.len() - from,
{
    if 0 <= from < a.len() {
        lemma_entries_irreflexive(a, from + 1);
    }
}

/// No value comes before itself.
pub proof fn lemma_irreflexive(a: Val)
    ensures
        !lt(a, a),
    decreases a,
{
    match a {
        Val::String(x) => lemma_text_order(x, x, x),
        Val::Bytes(x) => lemma_bytes_irreflexive(x, 0),
        Val::Tuple(x) => lemma_items_irreflexive(x, 0),
        Val::List(x) => lemma_items_irreflexive(x, 0),
        Val::Dict(x) => lemma_entries_irreflexive(x, 0),
        Val::Object(x) => lemma_instance_irreflexive(x),
        Val::Callable(x, arg) => lemma_irreflexive(*arg),
        _ => {},
    }
}

/// No placeholder comes before itself.
pub proof fn lemma_instance_irreflexive(a: InstanceVal)
    ensures
        !instance_lt(a, a),
{
    match a.kwargs {
        Some(x) => lemma_entries_irreflexive(x, 0),
        None => {},
    }
}

// Totality

/// Of two different values one comes before the other.
pub proof fn lemma_total(a: Val, b: Val)
    requires
        a != b,
    ensures
        lt(a, b) || lt(b, a),
    decreases a,
{
    if rank(a) == rank(b) {
        match a {
            Val::String(x) => lemma_text_order(x, b->String_0, x),
            Val::Bytes(x) => lemma_bytes_total(x, b->Bytes_0, 0),
            Val::Tuple(x) => lemma_items_total(x, b->Tuple_0, 0),
            Val::List(x) => lemma_items_total(x, b->List_0, 0),
            Val::Dict(x) => lemma_entries_total(x, b->Dict_0, 0),
            Val::Object(x) => lemma_instance_total(x, b->Object_0),
            Val::Callable(x, arg) => {
                if x != b->Callable_0 {
                    lemma_instance_total(x, b->Callable_0);
                } else {
                    lemma_total(*arg, *b->Callable_1);
                }
            },
            _ => {},
        }
    }
}

/// Of two different sequences of values one comes before the other.
pub proof fn lemma_items_total(a: Seq<Val>, b: Seq<Val>, from: int)
    requires
        0 <= from <= a.len(),
        from <= b.len(),
        agree(a, b, from),
        a != b,
    ensures
        items_lt(a, b, from) || items_lt(b, a, from),
    decreases a, a.len() - from,
{
    if from >= a.len() && from >= b.len() {
        assert(a =~= b);
    } else if from < a.len() && from < b.len() {
        if a[from] == b[from] {
            lemma_items_total(a, b, from + 1);
        } else {
            lemma_total(a[from], b[from]);
        }
    }
}

/// Of two different sequences of entries one comes before the other.
pub proof fn lemma_entries_total(a: Seq<(Val, Val)>, b: Seq<(Val, Val)>, from: int)
    requires
        0 <= from <= a.len(),
        from <= b.len(),
        agree(a, b, from),
        a != b,
    ensures
        entries_lt(a, b, from) || entries_lt(b, a, from),
    decreases a, a.len() - from,
{
    if from >= a.len() && from >= b.len() {
        assert(a =~= b);
    } else if from < a.len() && from < b.len() {
        if a[from] == b[from] {
            lemma_entries_total(a, b, from + 1);
        } else if a[from].0 != b[from].0 {
            lemma_total(a[from].0, b[from].0);
        } else {
            lemma_total(a[from].1, b[from].1);
        }
    }
}

/// Of two different placeholders one comes before the other.
pub proof fn lemma_instance_total(a: InstanceVal, b: InstanceVal)
    requires
        a != b,
    ensures
        instance_lt(a, b) || instance_lt(b, a),
    decreases a,
{
    if a.module != b.module {
        lemma_text_order(a.module, b.module, a.module);
    } else if a.name != b.name {
        lemma_text_order(a.name, b.name, a.name);
    } else if a.fields != b.fields {
        lemma_entries_total(a.fields, b.fields, 0);
    } else if a.args != b.args {
        lemma_items_total(a.args, b.args, 0);
    } else {
        match (a.kwargs, b.kwargs) {
            (Some(x), Some(y)) => {
                lemma_entries_total(x, y, 0);
            },
            _ => {},
        }
    }
}

// Transitivity

/// The order of values is transitive.
pub proof fn lemma_transitive(a: Val, b: Val, c: Val)
    ensures
        lt(a, b) && lt(b, c) ==> lt(a, c),
    decreases a,
{
    if lt(a, b) && lt(b, c) && rank(a) == rank(b) && rank(b) == rank(c) {
        match a {
            Val::String(x) => lemma_text_order(x, b->String_0, c->String_0),
            Val::Bytes(x) => lemma_bytes_transitive(x, b->Bytes_0, c->Bytes_0, 0),
            Val::Tuple(x) => lemma_items_transitive(x, b->Tuple_0, c->Tuple_0, 0),
            Val::List(x) => lemma_items_transitive(x, b->List_0, c->List_0, 0),
            Val::Dict(x) => lemma_entries_transitive(x, b->Dict_0, c->Dict_0, 0),
            Val::Object(x) => lemma_instance_transitive(x, b->Object_0, c->Object_0),
            Val::Callable(x, arg) => {
                lemma_instance_transitive(x, b->Callable_0, c->Callable_0);
                lemma_instance_irreflexive(x);
                lemma_transitive(*arg, *b->Callable_1, *c->Callable_1);
            },
            _ => {},
        }
    }
}

/// The order of sequences of values is transitive.
pub proof fn lemma_items_transitive(a: Seq<Val>, b: Seq<Val>, c: Seq<Val>, from: int)
    ensures
        items_lt(a, b, from) && items_lt(b, c, from) ==> items_lt(a, c, from),
    decreases a, a.len() - from,
{
    if items_lt(a, b, from) && items_lt(b, c, from) && from < a.len() {
        if a[from] == b[from] && b[from] == c[from] {
            lemma_items_transitive(a, b, c, from + 1);
        } else if a[from] != b[from] && b[from] != c[from] {
            lemma_transitive(a[from], b[from], c[from]);
            lemma_irreflexive(a[from]);
        }
    }
}

/// The order of sequences of entries is transitive.
pub proof fn lemma_entries_transitive(
    a: Seq<(Val, Val)>,
    b: Seq<(Val, Val)>,
    c: Seq<(Val, Val)>,
    from: int,
)
    ensures
        entries_lt(a, b, from) && entries_lt(b, c, from) ==> entries_lt(a, c, from),
    decreases a, a.len() - from,
{
    if entries_lt(a, b, from) && entries_lt(b, c, from) && from < a.len() {
        if a[from] == b[from] && b[from] == c[from] {
            lemma_entries_transitive(a, b, c, from + 1);
        } else {
            lemma_transitive(a[from].0, b[from].0, c[from].0);
            lemma_transitive(a[from].1, b[from].1, c[from].1);
            lemma_irreflexive(a[from].0);
            lemma_irreflexive(a[from].1);
        }
    }
}

/// The order of placeholders is transitive.
pub proof fn lemma_instance_transitive(a: InstanceVal, b: InstanceVal, c: InstanceVal)
    ensures
        instance_lt(a, b) && instance_lt(b, c) ==> instance_lt(a, c),
    decreases a,
{
    if instance_lt(a, b) && instance_lt(b, c) {
        lemma_text_order(a.module, b.module, c.module);
        lemma_text_order(a.name, b.name, c.name);
        lemma_entries_transitive(a.fields, b.fields, c.fields, 0);
        lemma_entries_irreflexive(a.fields, 0);
        lemma_items_transitive(a.args, b.args, c.args, 0);
        lemma_items_irreflexive(a.args, 0);
        match (a.kwargs, b.kwargs, c.kwargs) {
            (Some(x), Some(y), Some(z)) => {
                lemma_entries_transitive(x, y, z, 0);
            },
            _ => {},
        }
    }
}

/// The order of values is strict and total: no value comes before itself,
/// of two different values one comes before the other, and what comes before
/// something that comes before a third comes before the third.
pub proof fn law_order(a: Val, b: Val, c: Val)
    ensures
        !lt(a, a),
        a != b ==> lt(a, b) || lt(b, a),
        !(lt(a, b) && lt(b, a)),
        lt(a, b) && lt(b, c) ==> lt(a, c),
{
    lemma_irreflexive(a);
    if a != b {
        lemma_total(a, b);
    }
    lemma_transitive(a, b, c);
    lemma_transitive(a, b, a);
}

// The executable comparisons

/// Whether `a` comes before `b`, byte by byte.
pub fn bytes_before(a: &[u8], b: &[u8]) -> (r: bool)
    ensures
        r == bytes_lt(a@, b@, 0),
{
    let mut i: usize = 0;
    while i < a.len() && i < b.len()
        invariant
            i <= a.len(),
            i <= b.len(),
            bytes_lt(a@, b@, 0) == bytes_lt(a@, b@, i as int),
        decreases a.len() - i,
    {
        if a[i] != b[i] {
            return a[i] < b[i];
        }
        i += 1;
    }
    i < b.len()
}

/// Whether the text `a` comes before the text `b`.
pub fn text_before(a: &str, b: &str) -> (r: bool)
    ensures
        r == text_lt(a@, b@),
{
    bytes_before(a.as_bytes(), b.as_bytes())
}

/// The place of a value's case among the cases.
pub fn case_rank(v: &Value) -> (r: u8)
    ensures
        r == rank(v@),
{
    match v {
        Value::Nil => 0,
        Value::Bool(_) => 1,
        Value::Int(_) => 2,
        Value::UInt(_) => 3,
        Value::Long(_) => 4,
        Value::ULong(_) => 5,
        Value::Float(_) => 6,
        Value::String(_) => 7,
        Value::Bytes(_) => 8,
        Value::Tuple(_) => 9,
        Value::List(_) => 10,
        Value::Dict(_) => 11,
        Value::Object(_) => 12,
        Value::Callable(_, _) => 13,
        Value::Mark => 14,
    }
}

/// Whether the values `a` come before the values `b`.
pub fn items_before(a: &Vec<Value>, b: &Vec<Value>) -> (r: bool)
    ensures
        r == items_lt(values_view(a@), values_view(b@), 0),
    decreases a,
{
    let ghost x = values_view(a@);
    let ghost y = values_view(b@);
    let mut i: usize = 0;
    while i < a.len() && i < b.len()
        invariant
            i <= a.len(),
            i <= b.len(),
            x == values_view(a@),
            y == values_view(b@),
            items_lt(x, y, 0) == items_lt(x, y, i as int),
        decreases a.len() - i,
    {
        if !a[i].same(&b[i]) {
            return a[i].before(&b[i]);
        }
        i += 1;
    }
    i < b.len()
}

impl Dict {
    /// Whether this mapping comes before `other`.
    pub fn before(&self, other: &Dict) -> (r: bool)
        ensures
            r == entries_lt(self@, other@, 0),
        decreases self,
    {
        let n = self.len();
        let m = other.len();
        let mut i: usize = 0;
        while i < n && i < m
            invariant
                i <= n,
                i <= m,
                n == self@.len(),
                m == other@.len(),
                entries_lt(self@, other@, 0) == entries_lt(self@, other@, i as int),
            decreases n - i,
        {
            if !self.key_at(i).same(other.key_at(i)) {
                return self.key_at(i).before(other.key_at(i));
            }
            if !self.value_at(i).same(other.value_at(i)) {
                return self.value_at(i).before(other.value_at(i));
            }
            i += 1;
        }
        i < m
    }
}

impl Instance {
    /// Whether this placeholder comes before `other`.
    pub fn before(&self, other: &Instance) -> (r: bool)
        ensures
            r == instance_lt(self@, other@),
        decreases self,
    {
        if !text_same(self.module_str(), other.module_str()) {
            text_before(self.module_str(), other.module_str())
        } else if !text_same(self.name_str(), other.name_str()) {
            text_before(self.name_str(), other.name_str())
        } else if !self.fields().same(other.fields()) {
            self.fields().before(other.fields())
        } else if !same_values(self.args(), other.args()) {
            items_before(self.args(), other.args())
        } else {
            match self.kwargs() {
                None => other.kwargs().is_some(),
                Some(x) => match other.kwargs() {
                    None => false,
                    Some(y) => x.before(y),
                },
            }
        }
    }
}

impl Value {
    /// Whether this value comes before `other` in the order of values.
    pub fn before(&self, other: &Value) -> (r: bool)
        ensures
            r == lt(self@, other@),
        decreases self,
    {
        let mine = case_rank(self);
        let theirs = case_rank(other);
        if mine != theirs {
            return mine < theirs;
        }
        match self {
            Value::Bool(x) => match other {
                Value::Bool(y) => !*x && *y,
                _ => false,
            },
            Value::Int(x) => match other {
                Value::Int(y) => *x < *y,
                _ => false,
            },
            Value::UInt(x) => match other {
                Value::UInt(y) => *x < *y,
                _ => false,
            },
            Value::Long(x) => match other {
                Value::Long(y) => *x < *y,
                _ => false,
            },
            Value::ULong(x) => match other {
                Value::ULong(y) => *x < *y,
                _ => false,
            },
            Value::Float(x) => match other {
                Value::Float(y) => *x < *y,
                _ => false,
            },
            Value::String(x) => match other {
                Value::String(y) => text_before(x.as_str(), y.as_str()),
                _ => false,
            },
            Value::Bytes(x) => match other {
                Value::Bytes(y) => bytes_before(x.as_slice(), y.as_slice()),
                _ => false,
            },
            Value::Tuple(x) => match other {
                Value::Tuple(y) => items_before(x, y),
                _ => false,
            },
            Value::List(x) => match other {
                Value::List(y) => items_before(x, y),
                _ => false,
            },
            Value::Dict(x) => match other {
                Value::Dict(y) => x.before(y),
                _ => false,
            },
            Value::Object(x) => match other {
                Value::Object(y) => x.before(y),
                _ => false,
            },
            Value::Callable(x, arg) => match other {
                Value::Callable(y, other_arg) => if !x.same(y) {
                    x.before(y)
                } else {
                    arg.before(other_arg)
                },
                _ => false,
            },
            Value::Mark => false,
            Value::Nil => false,
        }
    }
}

/// Whether two texts are equal.
pub fn text_same(a: &str, b: &str) -> (r: bool)
    ensures
        r == (a@ == b@),
{
    let x = a.as_bytes();
    let y = b.as_bytes();
    proof {
        if a@ != b@ {
            lemma_text_bytes_differ(a@, b@);
        }
    }
    if x.len() != y.len() {
        return false;
    }
    let mut i: usize = 0;
    while i < x.len()
        invariant
            i <= x.len(),
            x.len() == y.len(),
            a@ == b@ ==> x@ == y@,
            forall|j: int| 0 <= j < i ==> x@[j] == y@[j],
        decreases x.len() - i,
    {
        if x[i] != y[i] {
            return false;
        }
        i += 1;
    }
    assert(x@ =~= y@);
    true
}

} // verus!
