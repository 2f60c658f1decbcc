//! The mathematical model of decoded values.
//!
//! A [`Val`] is what a [`crate::value::Value`] stands for: the same tree, with
//! sequences in place of vectors and strings. Contracts across the crate are
//! stated over this model, and two values are structurally equal exactly when
//! their models are equal.

use vstd::prelude::*;

verus! {

/// The model of a value.
pub enum Val {
    Bool(bool),
    String(Seq<char>),
    Int(i32),
    UInt(u32),
    Long(i128),
    ULong(u128),
    /// A 64-bit IEEE-754 number, held as its bit pattern.
    Float(u64),
    Tuple(Seq<Val>),
    List(Seq<Val>),
    /// The entries of a mapping, in the order of their keys.
    Dict(Seq<(Val, Val)>),
    Bytes(Seq<u8>),
    Object(InstanceVal),
    Callable(InstanceVal, Box<Val>),
    Mark,
    Nil,
}

/// The model of an object placeholder.
pub struct InstanceVal {
    pub name: Seq<char>,
    pub module: Seq<char>,
    pub fields: Seq<(Val, Val)>,
    pub args: Seq<Val>,
    pub kwargs: Option<Seq<(Val, Val)>>,
}

impl InstanceVal {
    /// A placeholder as a name-resolving instruction creates it.
    pub open spec fn fresh(name: Seq<char>, module: Seq<char>) -> InstanceVal {
        InstanceVal { name, module, fields: Seq::empty(), args: Seq::empty(), kwargs: None }
    }

    /// The registry key: module, a dot, name.
    pub open spec fn key(self) -> Seq<char> {
        self.module + seq!['.'] + self.name
    }
}

/// The mark sentinel occurs nowhere in the value: it is not the mark, and no
/// element, key, entry value, field, or argument inside it is.
pub open spec fn mark_free(v: Val) -> bool
    decreases v,
{
    match v {
        Val::Mark => false,
        Val::Tuple(items) => forall|i: int|
            0 <= i < items.len() ==> mark_free(#[trigger] items[i]),
        Val::List(items) => forall|i: int|
            0 <= i < items.len() ==> mark_free(#[trigger] items[i]),
        Val::Dict(entries) => forall|i: int|
            0 <= i < entries.len() ==> mark_free((#[trigger] entries[i]).0) && mark_free(
                entries[i].1,
            ),
        Val::Object(inst) => mark_free_within(inst),
        Val::Callable(inst, arg) => mark_free_within(inst) && mark_free(*arg),
        _ => true,
    }
}

/// `mark_free` of everything a placeholder holds.
pub open spec fn mark_free_within(inst: InstanceVal) -> bool
    decreases inst,
{
    &&& forall|i: int|
        0 <= i < inst.fields.len() ==> mark_free((#[trigger] inst.fields[i]).0) && mark_free(
            inst.fields[i].1,
        )
    &&& forall|i: int| 0 <= i < inst.args.len() ==> mark_free(#[trigger] inst.args[i])
    &&& match inst.kwargs {
        Some(entries) => forall|i: int|
            0 <= i < entries.len() ==> mark_free((#[trigger] entries[i]).0) && mark_free(
                entries[i].1,
            ),
        None => true,
    }
}

/// `mark_free` of every item.
pub open spec fn all_mark_free(items: Seq<Val>) -> bool {
    forall|i: int| 0 <= i < items.len() ==> mark_free(#[trigger] items[i])
}

/// `mark_free` of every key and every value.
pub open spec fn entries_mark_free(entries: Seq<(Val, Val)>) -> bool {
    forall|i: int|
        0 <= i < entries.len() ==> mark_free((#[trigger] entries[i]).0) && mark_free(entries[i].1)
}

/// `mark_free` of everything a placeholder holds: its fields, its arguments
/// and its keyword arguments.
pub open spec fn instance_mark_free(inst: InstanceVal) -> bool {
    &&& entries_mark_free(inst.fields)
    &&& all_mark_free(inst.args)
    &&& match inst.kwargs {
        Some(entries) => entries_mark_free(entries),
        None => true,
    }
}

/// What `mark_free` says of each case, one level down.
pub proof fn lemma_mark_free(v: Val)
    ensures
        v is Mark ==> !mark_free(v),
        v matches Val::Tuple(items) ==> mark_free(v) == all_mark_free(items),
        v matches Val::List(items) ==> mark_free(v) == all_mark_free(items),
        v matches Val::Dict(entries) ==> mark_free(v) == entries_mark_free(entries),
        v matches Val::Object(inst) ==> mark_free(v) == instance_mark_free(inst),
        v matches Val::Callable(inst, arg) ==> mark_free(v) == (instance_mark_free(inst)
            && mark_free(*arg)),
        !(v is Mark || v is Tuple || v is List || v is Dict || v is Object || v is Callable)
            ==> mark_free(v),
{
    reveal_with_fuel(mark_free, 2);
}

} // verus!
