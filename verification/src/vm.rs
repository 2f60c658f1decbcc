//! The executable stack machine.
//!
//! A [`VM`] owns the input of one decode pass. Its state has a model,
//! `vm@`, a [`Machine`]; [`VM::step`] is proved to take the model where
//! [`Machine::step`] says.

use crate::error::{DecodeError, ErrorKind};
use crate::machine::{
    as_index, as_text, counted, fetch_arg, fixed, has_mark, is_last_mark, last_mark, line,
    pairs_of, registered, run, slot, Fetched, Machine, Status, LONG_WIDTH, MAX_VERSION,
};
use crate::machine::{decode, literal, top_unmarked};
use crate::mapping::{put_all, text_keys};
use crate::model::{mark_free, Val};
use crate::op::{lemma_code_injective, Op, PROTO};
use crate::preserved::{lemma_last_mark, lemma_last_mark_is, lemma_step};
use crate::reader::{Reader, Source};
use crate::value::{qualified_name, reversed, values_view, Dict, Instance, Value};
use crate::wire::{
    decimal_value, le_value, lemma_decimal_prefix, lemma_pow256_values, parse_decimal,
    to_signed128, to_signed32, utf8_text,
};
use vstd::prelude::*;

verus! {

/// What the first two bytes of a stream must be: the protocol instruction and
/// an accepted version. Gives the version, or the failure with the number of
/// bytes that were consumed when it was found.
pub open spec fn header(input: Seq<u8>) -> Result<u8, DecodeError> {
    if input.len() < 1 {
        Err(DecodeError { kind: ErrorKind::TruncatedRead, offset: 0 })
    } else if input[0] != PROTO {
        Err(DecodeError { kind: ErrorKind::BadMagicHeader, offset: 1 })
    } else if input.len() < 2 {
        Err(DecodeError { kind: ErrorKind::TruncatedRead, offset: 1 })
    } else if input[1] > MAX_VERSION {
        Err(DecodeError { kind: ErrorKind::UnsupportedVersion, offset: 2 })
    } else {
        Ok(input[1])
    }
}

/// The machine behind the header of `input`: running, with nothing on the
/// stack, nothing in the memo table and nothing registered.
pub open spec fn started(input: Seq<u8>, limit: int) -> Machine {
    Machine {
        src: Source { bytes: input, pos: 2, frame_end: 0, limit },
        version: input[1],
        stack: Seq::empty(),
        memo: Seq::empty(),
        status: Status::Running,
        keys: Seq::empty(),
    }
}

/// The texts of a sequence of strings.
pub open spec fn texts(names: Seq<String>) -> Seq<Seq<char>> {
    Seq::new(names.len(), |i: int| names[i]@)
}

/// A decoder over one byte stream.
///
/// `F` is the type of the transforms that the host registers for foreign
/// types; a transform gets the argument of a reconstruction request and
/// returns the value that takes the request's place.
pub struct VM<F: Fn(Value) -> Value> {
    reader: Reader,
    version: u8,
    stack: Vec<Value>,
    memo: Vec<Value>,
    status: Status,
    names: Vec<String>,
    transforms: Vec<F>,
}

impl<F: Fn(Value) -> Value> VM<F> {
    /// The model of the decoder's state.
    pub closed spec fn view(&self) -> Machine {
        Machine {
            src: self.reader@,
            version: self.version,
            stack: values_view(self.stack@),
            memo: values_view(self.memo@),
            status: self.status,
            keys: texts(self.names@),
        }
    }

    /// The registered transforms, in the order of their keys.
    pub closed spec fn transforms(&self) -> Seq<F> {
        self.transforms@
    }

    /// The value on top of the stack.
    pub closed spec fn top(&self) -> Value {
        self.stack@.last()
    }

    /// The state is one that a decode pass reaches, and every registered
    /// transform accepts every value.
    pub closed spec fn wf(&self) -> bool {
        &&& self@.wf()
        &&& self.names@.len() == self.transforms@.len()
        &&& forall|i: int, v: Value|
            0 <= i < self.transforms@.len() ==> #[trigger] call_requires(
                self.transforms@[i],
                (v,),
            )
    }

    /// Starts a decode pass over `input`: checks the header and stands
    /// behind it. No length on the wire is refused for its size alone.
    pub fn from(input: Vec<u8>) -> (r: Result<Self, DecodeError>)
        ensures
            match r {
                Ok(vm) => header(input@).is_ok() && vm@ == started(input@, usize::MAX as int)
                    && vm.wf() && vm.transforms().len() == 0,
                Err(e) => header(input@) == Err::<u8, DecodeError>(e),
            },
    {
        if input.len() < 1 {
            return Err(DecodeError { kind: ErrorKind::TruncatedRead, offset: 0 });
        }
        if input[0] != PROTO {
            return Err(DecodeError { kind: ErrorKind::BadMagicHeader, offset: 1 });
        }
        if input.len() < 2 {
            return Err(DecodeError { kind: ErrorKind::TruncatedRead, offset: 1 });
        }
        let version = input[1];
        if version > MAX_VERSION {
            return Err(DecodeError { kind: ErrorKind::UnsupportedVersion, offset: 2 });
        }
        let ghost bytes = input@;
        let mut reader = Reader::new(input, usize::MAX);
        let skipped = reader.read_le(2);
        let vm = VM {
            reader,
            version,
            stack: Vec::new(),
            memo: Vec::new(),
            status: Status::Running,
            names: Vec::new(),
            transforms: Vec::new(),
        };
        assert(vm@.stack =~= Seq::<Val>::empty());
        assert(vm@.memo =~= Seq::<Val>::empty());
        assert(vm@.keys =~= Seq::<Seq<char>>::empty());
        Ok(vm)
    }

    /// The read cursor: the number of bytes of the input consumed so far.
    /// After a failure, this is where it occurred.
    pub fn position(&self) -> (pos: usize)
        ensures
            pos == self@.src.pos,
    {
        self.reader.position()
    }

    /// Where the decode pass stands.
    pub fn status(&self) -> (status: Status)
        ensures
            status == self@.status,
    {
        self.status
    }

    /// The protocol version that the stream declared.
    pub fn version(&self) -> (version: u8)
        ensures
            version == self@.version,
    {
        self.version
    }

    /// The number of operands on the stack.
    pub fn depth(&self) -> (n: usize)
        ensures
            n == self@.stack.len(),
    {
        self.stack.len()
    }

    /// Sets the largest length on the wire that is accepted.
    pub fn set_limit(&mut self, limit: usize)
        requires
            old(self).wf(),
        ensures
            final(self).wf(),
            final(self)@ == (Machine {
                src: Source { limit: limit as int, ..old(self)@.src },
                ..old(self)@
            }),
            final(self).transforms() == old(self).transforms(),
    {
        self.reader.set_limit(limit);
    }

    /// Aborts the pass.
    fn fail(&mut self, e: ErrorKind)
        ensures
            final(self)@ == old(self)@.fail(e),
            final(self).transforms == old(self).transforms,
            final(self).names == old(self).names,
    {
        self.status = Status::Failed(e);
    }
}

/// Consumes the argument that follows the byte of `op`.
fn read_arg(reader: &mut Reader, op: Op) -> (r: Result<Value, ErrorKind>)
    ensures
        final(reader)@ == fetch_arg(op, old(reader)@).src,
        match r {
            Ok(v) => fetch_arg(op, old(reader)@).arg == Ok::<Val, ErrorKind>(v@),
            Err(e) => fetch_arg(op, old(reader)@).arg == Err::<Val, ErrorKind>(e),
        },
{
    match op {
        Op::BinInt => read_int(reader),
        Op::BinInt1 | Op::BinGet | Op::BinPut | Op::Proto => read_uint(reader, 1),
        Op::BinInt2 => read_uint(reader, 2),
        Op::LongBinGet | Op::LongBinPut => read_uint(reader, 4),
        Op::BinFloat => read_float(reader),
        Op::Frame => read_frame_len(reader),
        Op::Long1 => read_long1(reader),
        Op::BinBytes => read_bytes(reader),
        Op::BinUnicode => read_text(reader, 4),
        Op::ShortBinunicde => read_text(reader, 1),
        Op::BinString => read_binstring(reader),
        Op::Get | Op::Put => read_index_line(reader),
        Op::GlobalOpcode => read_global(reader),
        Op::Append
        | Op::Appends
        | Op::BinPersid
        | Op::Build
        | Op::EmptyDict
        | Op::EmptyList
        | Op::EmptyTuple
        | Op::Mark
        | Op::Memoize
        | Op::NewObj
        | Op::NewFalse
        | Op::NewTrue
        | Op::NoneOpcode
        | Op::Reduce
        | Op::SetItems
        | Op::StackGlobal
        | Op::Stop
        | Op::Tuple
        | Op::Tuple1
        | Op::Tuple2
        | Op::Tuple3 => Ok(Value::Nil),
        _ => Err(ErrorKind::UnimplementedOpcode),
    }
}

/// Whether the result of a read is what the model says of it.
spec fn agrees(r: Result<Value, ErrorKind>, after: Source, fetched: Fetched) -> bool {
    &&& after == fetched.src
    &&& match r {
        Ok(v) => fetched.arg == Ok::<Val, ErrorKind>(v@),
        Err(e) => fetched.arg == Err::<Val, ErrorKind>(e),
    }
}

/// A signed little-endian integer of four bytes.
fn read_int(reader: &mut Reader) -> (r: Result<Value, ErrorKind>)
    ensures
        agrees(r, final(reader)@, fetch_arg(Op::BinInt, old(reader)@)),
{
    proof {
        lemma_pow256_values();
    }
    let pattern = reader.read_le(4)?;
    Ok(Value::Int(to_signed32(pattern as u32)))
}

/// An unsigned little-endian integer of one, two or four bytes.
fn read_uint(reader: &mut Reader, width: usize) -> (r: Result<Value, ErrorKind>)
    requires
        width == 1 || width == 2 || width == 4,
    ensures
        agrees(
            r,
            final(reader)@,
            fixed(old(reader)@, width as int, |b: Seq<u8>| Val::UInt(le_value(b) as u32)),
        ),
{
    proof {
        lemma_pow256_values();
    }
    let n = reader.read_le(width)?;
    Ok(Value::UInt(n as u32))
}

/// The bit pattern of a big-endian 64-bit floating-point number.
fn read_float(reader: &mut Reader) -> (r: Result<Value, ErrorKind>)
    ensures
        agrees(r, final(reader)@, fetch_arg(Op::BinFloat, old(reader)@)),
{
    proof {
        lemma_pow256_values();
    }
    let bits = reader.read_be(8)?;
    Ok(Value::Float(bits as u64))
}

/// The length of a frame: an unsigned little-endian integer of eight bytes.
fn read_frame_len(reader: &mut Reader) -> (r: Result<Value, ErrorKind>)
    ensures
        agrees(r, final(reader)@, fetch_arg(Op::Frame, old(reader)@)),
{
    let len = reader.read_le(8)?;
    Ok(Value::ULong(len))
}

/// A length-prefixed integer.
fn read_long1(reader: &mut Reader) -> (r: Result<Value, ErrorKind>)
    ensures
        agrees(r, final(reader)@, fetch_arg(Op::Long1, old(reader)@)),
{
    proof {
        lemma_pow256_values();
    }
    let count = reader.read_le(1)? as usize;
    if count > LONG_WIDTH {
        return Err(ErrorKind::UnimplementedOpcode);
    }
    let pattern = reader.read_le(count)?;
    Ok(Value::Long(to_signed128(pattern)))
}

/// A byte string behind its four-byte length.
fn read_bytes(reader: &mut Reader) -> (r: Result<Value, ErrorKind>)
    ensures
        agrees(r, final(reader)@, fetch_arg(Op::BinBytes, old(reader)@)),
{
    proof {
        lemma_pow256_values();
    }
    let count = reader.read_le(4)? as usize;
    let bytes = reader.read_n(count)?;
    Ok(Value::Bytes(bytes))
}

/// A text behind its length of `width` bytes.
fn read_text(reader: &mut Reader, width: usize) -> (r: Result<Value, ErrorKind>)
    requires
        width == 1 || width == 4,
    ensures
        agrees(r, final(reader)@, counted(old(reader)@, width as int, |b: Seq<u8>| as_text(b))),
{
    proof {
        lemma_pow256_values();
    }
    let count = reader.read_le(width)? as usize;
    let bytes = reader.read_n(count)?;
    text_value(bytes)
}

/// A text behind its signed four-byte length.
fn read_binstring(reader: &mut Reader) -> (r: Result<Value, ErrorKind>)
    ensures
        agrees(r, final(reader)@, fetch_arg(Op::BinString, old(reader)@)),
{
    proof {
        lemma_pow256_values();
    }
    let count = to_signed32(reader.read_le(4)? as u32);
    if count < 0 {
        return Err(ErrorKind::ResourceLimitExceeded);
    }
    let bytes = reader.read_n(count as usize)?;
    text_value(bytes)
}

/// A memo index written as a line of decimal digits.
fn read_index_line(reader: &mut Reader) -> (r: Result<Value, ErrorKind>)
    ensures
        agrees(r, final(reader)@, line(old(reader)@, |b: Seq<u8>| as_index(b))),
{
    let digits = reader.read_line()?;
    match parse_decimal(&digits) {
        Some(index) => Ok(Value::UInt(index)),
        None => {
            if all_digits(&digits) {
                Err(ErrorKind::MemoIndexOutOfRange)
            } else {
                Err(ErrorKind::InvalidTextEncoding)
            }
        },
    }
}

/// The two lines of a global name: module, then name.
fn read_global(reader: &mut Reader) -> (r: Result<Value, ErrorKind>)
    ensures
        agrees(r, final(reader)@, fetch_arg(Op::GlobalOpcode, old(reader)@)),
{
    let module = reader.read_line()?;
    let name = reader.read_line()?;
    match utf8_text(module) {
        Some(m) => match utf8_text(name) {
            Some(n) => {
                let mut parts: Vec<Value> = Vec::new();
                let ghost texts = seq![Val::String(m@), Val::String(n@)];
                parts.push(Value::String(m));
                parts.push(Value::String(n));
                assert(values_view(parts@) =~= texts);
                Ok(Value::Tuple(parts))
            },
            None => Err(ErrorKind::InvalidTextEncoding),
        },
        None => Err(ErrorKind::InvalidTextEncoding),
    }
}

/// Bytes as a text value, if they are valid UTF-8.
fn text_value(bytes: Vec<u8>) -> (r: Result<Value, ErrorKind>)
    ensures
        match r {
            Ok(v) => as_text(bytes@) == Ok::<Val, ErrorKind>(v@),
            Err(e) => as_text(bytes@) == Err::<Val, ErrorKind>(e),
        },
{
    match utf8_text(bytes) {
        Some(text) => Ok(Value::String(text)),
        None => Err(ErrorKind::InvalidTextEncoding),
    }
}

/// Whether a line is one or more ASCII digits and nothing else.
fn all_digits(line: &Vec<u8>) -> (r: bool)
    ensures
        r == decimal_value(line@).is_some(),
{
    if line.len() == 0 {
        return false;
    }
    let mut i: usize = 0;
    while i < line.len()
        invariant
            i <= line.len(),
            line.len() > 0,
            i > 0 ==> decimal_value(line@.take(i as int)).is_some(),
        decreases line.len() - i,
    {
        proof {
            assert(line@.take(i + 1).drop_last() =~= line@.take(i as int));
        }
        if line[i] < 0x30 || line[i] > 0x39 {
            proof {
                lemma_decimal_prefix(line@, i + 1);
            }
            return false;
        }
        i += 1;
    }
    assert(line@.take(line.len() as int) =~= line@);
    true
}

/// Whether the argument has the shape that the literal instruction pushes.
fn is_literal(op: Op, arg: &Value) -> (r: bool)
    ensures
        r == literal(op, arg@),
{
    match op {
        Op::BinInt => match arg {
            Value::Int(_) => true,
            _ => false,
        },
        Op::BinInt1 | Op::BinInt2 => match arg {
            Value::UInt(_) => true,
            _ => false,
        },
        Op::BinFloat => match arg {
            Value::Float(_) => true,
            _ => false,
        },
        Op::Long1 => match arg {
            Value::Long(_) => true,
            _ => false,
        },
        Op::BinBytes => match arg {
            Value::Bytes(_) => true,
            _ => false,
        },
        Op::BinUnicode | Op::ShortBinunicde | Op::BinString => arg.is_string(),
        _ => false,
    }
}

/// Whether every key of the mapping that `state` is is text.
fn state_has_text_keys(state: &Value) -> (r: bool)
    requires
        state@ is Dict,
    ensures
        r == text_keys(state@->Dict_0),
{
    match state {
        Value::Dict(d) => d.has_text_keys(),
        _ => false,
    }
}

/// The registry key of the type that the placeholder `callable` names.
fn key_of(callable: &Value) -> (key: String)
    requires
        callable@ is Object,
    ensures
        key@ == callable@->Object_0.key(),
{
    match callable {
        Value::Object(inst) => inst.as_key(),
        _ => String::new(),
    }
}

/// Puts the items, read as keys and values in turn, into the mapping.
fn merge_pairs(dict: Dict, items: Vec<Value>) -> (out: Dict)
    requires
        items@.len() % 2 == 0,
    ensures
        out@ == put_all(dict@, pairs_of(values_view(items@))),
{
    let ghost pairs = pairs_of(values_view(items@));
    let ghost all = items@;
    let ghost before = dict@;
    let mut dict = dict;
    let mut rest = reversed(items);
    let ghost total = all.len() as int;
    assert(pairs.take(0) =~= Seq::<(Val, Val)>::empty());
    while rest.len() > 0
        invariant
            total == all.len(),
            total % 2 == 0,
            rest@.len() % 2 == 0,
            rest@.len() <= total,
            pairs == pairs_of(values_view(all)),
            forall|j: int| 0 <= j < rest@.len() ==> rest@[j] == all[total - 1 - j],
            dict@ == put_all(before, pairs.take((total - rest@.len()) / 2)),
        decreases rest.len(),
    {
        let ghost done = (total - rest@.len()) / 2;
        let key = rest.pop().unwrap();
        let value = rest.pop().unwrap();
        proof {
            assert(key == all[2 * done]);
            assert(value == all[2 * done + 1]);
            assert(pairs.take(done + 1).drop_last() =~= pairs.take(done));
            assert(pairs.take(done + 1).last() == pairs[done]);
            assert(pairs[done] == (key@, value@));
        }
        dict.insert(key, value);
    }
    assert(pairs.take(total / 2) =~= pairs);
    dict
}

impl<F: Fn(Value) -> Value> VM<F> {
    /// Whether two decoders hold the same registry.
    spec fn same_registry(&self, other: &Self) -> bool {
        self.names == other.names && self.transforms == other.transforms
    }

    /// The transform that the request on the stack goes to.
    pub closed spec fn transform(&self) -> F {
        self.transforms@[slot(self@.keys, self@.reduce_key())]
    }

    /// Whether `next` is a state that one step may take this decoder to: the
    /// state that the model gives, where a transform was called for what it
    /// returned; with the registry as it was.
    pub open spec fn steps_to(&self, next: &Self) -> bool {
        &&& next.transforms() == self.transforms()
        &&& if self@.dispatches() {
            exists|out: Value|
                call_ensures(self.transform(), (self.top(),), out) && next@ == self@.step(out@)
        } else {
            next@ == self@.step(Val::Nil)
        }
    }

    /// Whether `trace` is a run of this decoder: it starts here, and each of
    /// its states is followed by one that a step may take it to.
    pub open spec fn runs(&self, trace: Seq<Self>) -> bool {
        &&& trace.len() >= 1
        &&& trace[0] == *self
        &&& forall|i: int| 0 <= i < trace.len() - 1 ==> (#[trigger] trace[i]).steps_to(&trace[i + 1])
    }

    /// The operand at `index`, counted from the bottom.
    fn operand(&self, index: usize) -> (v: &Value)
        requires
            index < self@.stack.len(),
        ensures
            v@ == self@.stack[index as int],
    {
        &self.stack[index]
    }

    /// Pushes a value.
    fn push(&mut self, v: Value)
        ensures
            final(self)@ == old(self)@.push(v@),
            final(self).same_registry(old(self)),
    {
        self.stack.push(v);
        assert(values_view(self.stack@) =~= values_view(old(self).stack@).push(v@));
    }

    /// Takes the topmost operand off the stack.
    fn pop(&mut self) -> (v: Value)
        requires
            old(self)@.stack.len() > 0,
        ensures
            v == old(self).top(),
            v@ == old(self)@.stack.last(),
            final(self)@ == (Machine { stack: old(self)@.stack.drop_last(), ..old(self)@ }),
            final(self).same_registry(old(self)),
    {
        let v = self.stack.pop().unwrap();
        assert(values_view(self.stack@) =~= values_view(old(self).stack@).drop_last());
        v
    }

    /// Takes the operands from `from` up off the stack.
    fn pop_from(&mut self, from: usize) -> (items: Vec<Value>)
        requires
            from <= old(self)@.stack.len(),
        ensures
            values_view(items@) == old(self)@.stack.skip(from as int),
            final(self)@ == (Machine { stack: old(self)@.stack.take(from as int), ..old(self)@ }),
            final(self).same_registry(old(self)),
    {
        let items = self.stack.split_off(from);
        assert(values_view(self.stack@) =~= values_view(old(self).stack@).take(from as int));
        assert(values_view(items@) =~= values_view(old(self).stack@).skip(from as int));
        items
    }

    /// The place of the topmost mark.
    fn find_mark(&self) -> (r: Option<usize>)
        ensures
            match r {
                Some(i) => has_mark(self@.stack) && i == last_mark(self@.stack) && i
                    < self@.stack.len() && i < usize::MAX,
                None => !has_mark(self@.stack),
            },
    {
        let mut i = self.stack.len();
        while i > 0
            invariant
                i <= self.stack.len(),
                forall|j: int| i <= j < self@.stack.len() ==> !(#[trigger] self@.stack[j] is Mark),
            decreases i,
        {
            i -= 1;
            if self.stack[i].is_mark() {
                proof {
                    assert(is_last_mark(self@.stack, i as int));
                    lemma_last_mark_is(self@.stack, i as int);
                }
                return Some(i);
            }
        }
        proof {
            if has_mark(self@.stack) {
                lemma_last_mark(self@.stack);
            }
        }
        None
    }

    /// Whether no mark is among the topmost `count` operands.
    fn top_is_unmarked(&self, count: usize) -> (r: bool)
        requires
            count <= self@.stack.len(),
        ensures
            r == top_unmarked(self@.stack, count as int),
    {
        let n = self.stack.len();
        let mut j = n - count;
        while j < n
            invariant
                n == self.stack.len(),
                n - count <= j <= n,
                forall|k: int| n - count <= k < j ==> !(#[trigger] self@.stack[k] is Mark),
            decreases n - j,
        {
            if self.stack[j].is_mark() {
                assert(self@.stack[j as int] is Mark);
                return false;
            }
            j += 1;
        }
        true
    }

    /// Where the transform registered under `key` stands.
    fn find_transform(&self, key: &String) -> (r: Option<usize>)
        requires
            self.wf(),
        ensures
            match r {
                Some(i) => registered(self@.keys, key@) && i == slot(self@.keys, key@) && i
                    < self.transforms@.len(),
                None => !registered(self@.keys, key@),
            },
    {
        let mut i: usize = 0;
        while i < self.names.len()
            invariant
                i <= self.names.len(),
                self.wf(),
                forall|j: int| 0 <= j < i ==> #[trigger] self@.keys[j] != key@,
            decreases self.names.len() - i,
        {
            if self.names[i] == *key {
                proof {
                    assert(self@.keys[i as int] == key@);
                    let s = slot(self@.keys, key@);
                    if s < i {
                        assert(self@.keys[s] != self@.keys[i as int]);
                    } else if i < s {
                        assert(self@.keys[i as int] != self@.keys[s]);
                    }
                }
                return Some(i);
            }
            i += 1;
        }
        None
    }

    /// Records the top of the stack in the memo table at `index`.
    fn remember(&mut self, index: usize)
        ensures
            final(self)@ == old(self)@.remember(index as int),
            final(self).same_registry(old(self)),
    {
        let n = self.stack.len();
        if n == 0 {
            self.fail(ErrorKind::StackUnderflow);
        } else if self.stack[n - 1].is_mark() {
            self.fail(ErrorKind::StackTypeMismatch);
        } else if index > self.memo.len() {
            self.fail(ErrorKind::MemoIndexOutOfRange);
        } else {
            let copy = self.stack[n - 1].dup();
            if index == self.memo.len() {
                self.memo.push(copy);
                assert(values_view(self.memo@) =~= old(self)@.memo.push(old(self)@.stack.last()));
            } else {
                self.memo.set(index, copy);
                assert(values_view(self.memo@) =~= old(self)@.memo.update(
                    index as int,
                    old(self)@.stack.last(),
                ));
            }
        }
    }

    /// Pushes a copy of the memo entry at `index`.
    fn recall(&mut self, index: usize)
        ensures
            final(self)@ == old(self)@.recall(index as int),
            final(self).same_registry(old(self)),
    {
        if index >= self.memo.len() {
            self.fail(ErrorKind::MemoIndexOutOfRange);
        } else {
            let copy = self.memo[index].dup();
            self.push(copy);
        }
    }

    /// Wraps the topmost `count` operands as a tuple.
    fn tuple_of(&mut self, count: usize)
        ensures
            final(self)@ == old(self)@.tuple_of(count as int),
            final(self).same_registry(old(self)),
    {
        let n = self.stack.len();
        if n < count {
            self.fail(ErrorKind::StackUnderflow);
        } else if !self.top_is_unmarked(count) {
            self.fail(ErrorKind::StackTypeMismatch);
        } else {
            let items = self.pop_from(n - count);
            self.push(Value::Tuple(items));
        }
    }

    /// Wraps the operands above the topmost mark as a tuple.
    fn tuple_to_mark(&mut self)
        ensures
            final(self)@ == old(self)@.tuple_to_mark(),
            final(self).same_registry(old(self)),
    {
        match self.find_mark() {
            None => self.fail(ErrorKind::StackUnderflow),
            Some(mark) => {
                let items = self.pop_from(mark + 1);
                let _ = self.pop();
                self.push(Value::Tuple(items));
                assert(self@.stack =~= old(self)@.stack.take(mark as int).push(
                    Val::Tuple(run(old(self)@.stack)),
                ));
            },
        }
    }

    /// Appends the top of the stack to the list below it.
    fn append(&mut self)
        ensures
            final(self)@ == old(self)@.append(),
            final(self).same_registry(old(self)),
    {
        let n = self.stack.len();
        if n < 2 {
            self.fail(ErrorKind::StackUnderflow);
        } else if self.operand(n - 1).is_mark() || !self.operand(n - 2).is_list() {
            self.fail(ErrorKind::StackTypeMismatch);
        } else {
            let item = self.pop();
            let mut items = self.pop().as_list().unwrap();
            let ghost shorter = values_view(items@);
            items.push(item);
            assert(values_view(items@) =~= shorter.push(item@));
            self.push(Value::List(items));
            assert(self@.stack =~= old(self)@.fold(
                2,
                Val::List(shorter.push(old(self)@.stack.last())),
            ).stack);
        }
    }

    /// Extends the list below the topmost mark by the operands above it.
    fn appends(&mut self)
        ensures
            final(self)@ == old(self)@.appends(),
            final(self).same_registry(old(self)),
    {
        let found = self.find_mark();
        if found.is_none() || found.unwrap() == 0 {
            self.fail(ErrorKind::StackUnderflow);
        } else {
            let mark = found.unwrap();
            if !self.operand(mark - 1).is_list() {
                self.fail(ErrorKind::StackTypeMismatch);
            } else {
                let mut more = self.pop_from(mark + 1);
                let _ = self.pop();
                let mut items = self.pop().as_list().unwrap();
                let ghost shorter = values_view(items@);
                let ghost added = values_view(more@);
                items.append(&mut more);
                assert(values_view(items@) =~= shorter + added);
                self.push(Value::List(items));
                assert(self@.stack =~= old(self)@.stack.take(mark - 1).push(
                    Val::List(shorter + run(old(self)@.stack)),
                ));
            }
        }
    }

    /// Merges the operands above the topmost mark into the mapping below it.
    fn set_items(&mut self)
        ensures
            final(self)@ == old(self)@.set_items(),
            final(self).same_registry(old(self)),
    {
        let found = self.find_mark();
        let n = self.stack.len();
        if found.is_none() || found.unwrap() == 0 || (n - found.unwrap() - 1) % 2 != 0 {
            self.fail(ErrorKind::StackUnderflow);
        } else {
            let mark = found.unwrap();
            if !self.operand(mark - 1).is_dict() {
                self.fail(ErrorKind::StackTypeMismatch);
            } else {
                let items = self.pop_from(mark + 1);
                let _ = self.pop();
                let dict = self.pop().as_dict().unwrap();
                let ghost entries = dict@;
                let merged = merge_pairs(dict, items);
                self.push(Value::Dict(merged));
                assert(self@.stack =~= old(self)@.stack.take(mark - 1).push(
                    Val::Dict(put_all(entries, pairs_of(run(old(self)@.stack)))),
                ));
            }
        }
    }

    /// Replaces two texts by a placeholder for the type they name.
    fn stack_global(&mut self)
        ensures
            final(self)@ == old(self)@.stack_global(),
            final(self).same_registry(old(self)),
    {
        let n = self.stack.len();
        if n < 2 {
            self.fail(ErrorKind::StackUnderflow);
        } else if !self.operand(n - 2).is_string() || !self.operand(n - 1).is_string() {
            self.fail(ErrorKind::StackTypeMismatch);
        } else {
            let name = self.pop().as_string().unwrap();
            let module = self.pop().as_string().unwrap();
            self.push(Value::Object(Instance::new(name, module)));
            assert(self@.stack =~= old(self)@.stack_global().stack);
        }
    }

    /// Attaches constructor arguments to the placeholder below them.
    fn new_obj(&mut self)
        ensures
            final(self)@ == old(self)@.new_obj(),
            final(self).same_registry(old(self)),
    {
        let n = self.stack.len();
        if n < 2 {
            self.fail(ErrorKind::StackUnderflow);
        } else if !self.operand(n - 2).is_object() || !self.operand(n - 1).is_tuple() {
            self.fail(ErrorKind::StackTypeMismatch);
        } else {
            let args = self.pop().as_tuple().unwrap();
            let mut inst = self.pop().as_instance().unwrap();
            inst.set_args(args);
            self.push(Value::Object(inst));
            assert(self@.stack =~= old(self)@.new_obj().stack);
        }
    }

    /// Merges a state into the fields of the placeholder below it.
    fn build(&mut self)
        ensures
            final(self)@ == old(self)@.build(),
            final(self).same_registry(old(self)),
    {
        let n = self.stack.len();
        if n < 2 {
            self.fail(ErrorKind::StackUnderflow);
        } else if !self.operand(n - 2).is_object() || !self.operand(n - 1).is_dict() {
            self.fail(ErrorKind::StackTypeMismatch);
        } else if !state_has_text_keys(self.operand(n - 1)) {
            self.fail(ErrorKind::MalformedFieldKey);
        } else {
            let state = self.pop().as_dict().unwrap();
            let mut inst = self.pop().as_instance().unwrap();
            match inst.set_fields(state) {
                Ok(_) => {
                    self.push(Value::Object(inst));
                    assert(self@.stack =~= old(self)@.build().stack);
                },
                Err(e) => {
                    self.fail(e);
                },
            }
        }
    }

    /// Hands the request on the stack to the transform registered for its
    /// type, or records it where there is none.
    fn reduce(&mut self)
        requires
            old(self).wf(),
        ensures
            final(self).same_registry(old(self)),
            old(self)@.calls_transform() ==> exists|out: Value|
                call_ensures(old(self).transform(), (old(self).top(),), out) && final(self)@
                    == old(self)@.reduce(out@),
            !old(self)@.calls_transform() ==> final(self)@ == old(self)@.reduce(Val::Nil),
    {
        let n = self.stack.len();
        if n < 2 {
            self.fail(ErrorKind::StackUnderflow);
        } else if self.operand(n - 1).is_mark() || !self.operand(n - 2).is_object() {
            self.fail(ErrorKind::StackTypeMismatch);
        } else {
            let key = key_of(self.operand(n - 2));
            let found = self.find_transform(&key);
            let arg = self.pop();
            let callable = self.pop();
            let ghost cut = self@;
            match found {
                Some(i) => {
                    let out = (self.transforms[i])(arg);
                    let ghost reply = out;
                    if out.is_mark_free() {
                        self.push(out);
                        assert(self@.stack =~= old(self)@.fold(2, reply@).stack);
                    } else {
                        self.fail(ErrorKind::StackTypeMismatch);
                        assert(self@.stack =~= old(self)@.stack.take(n - 2));
                    }
                    assert(call_ensures(old(self).transform(), (old(self).top(),), reply));
                    assert(self@ == old(self)@.reduce(reply@));
                },
                None => {
                    let inst = callable.as_instance().unwrap();
                    self.push(Value::Callable(inst, Box::new(arg)));
                    assert(self@.stack =~= old(self)@.reduce(Val::Nil).stack);
                },
            }
        }
    }

    /// Records the protocol version, if it is one that is accepted.
    fn proto(&mut self, version: u32)
        ensures
            final(self)@ == old(self)@.proto(version as int),
            final(self).same_registry(old(self)),
    {
        if version > MAX_VERSION as u32 {
            self.fail(ErrorKind::UnsupportedVersion);
        } else {
            self.version = version as u8;
        }
    }

    /// Enters a frame of `len` bytes.
    fn frame(&mut self, len: u128)
        ensures
            final(self)@ == old(self)@.frame(len as int),
            final(self).same_registry(old(self)),
    {
        let limit = self.reader.limit();
        if len > limit as u128 {
            self.fail(ErrorKind::ResourceLimitExceeded);
        } else {
            match self.reader.enter_frame(len as u64) {
                Ok(_) => {},
                Err(e) => {
                    self.fail(e);
                },
            }
        }
    }

    /// Applies an instruction that calls no transform.
    fn execute(&mut self, op: Op, arg: Value)
        requires
            op != Op::Reduce,
        ensures
            final(self)@ == old(self)@.effect(op, arg@, Val::Nil),
            final(self).same_registry(old(self)),
    {
        match op {
            Op::Stop => {
                self.status = Status::Completed;
            },
            Op::Mark => self.push(Value::Mark),
            Op::EmptyList => {
                let items: Vec<Value> = Vec::new();
                assert(values_view(items@) =~= Seq::<Val>::empty());
                self.push(Value::List(items));
            },
            Op::EmptyDict => self.push(Value::Dict(Dict::new())),
            Op::EmptyTuple => {
                let items: Vec<Value> = Vec::new();
                assert(values_view(items@) =~= Seq::<Val>::empty());
                self.push(Value::Tuple(items));
            },
            Op::NewTrue => self.push(Value::Bool(true)),
            Op::NewFalse => self.push(Value::Bool(false)),
            Op::NoneOpcode => self.push(Value::Nil),
            Op::BinPersid => {},
            Op::BinInt
            | Op::BinInt1
            | Op::BinInt2
            | Op::BinFloat
            | Op::Long1
            | Op::BinBytes
            | Op::BinUnicode
            | Op::ShortBinunicde
            | Op::BinString => {
                if is_literal(op, &arg) {
                    self.push(arg);
                } else {
                    self.fail(ErrorKind::UnimplementedOpcode);
                }
            },
            Op::Memoize => {
                let next = self.memo.len();
                self.remember(next);
            },
            Op::BinPut | Op::LongBinPut | Op::Put => match arg.as_uint() {
                Some(index) => self.remember(index as usize),
                None => self.fail(ErrorKind::UnimplementedOpcode),
            },
            Op::BinGet | Op::LongBinGet | Op::Get => match arg.as_uint() {
                Some(index) => self.recall(index as usize),
                None => self.fail(ErrorKind::UnimplementedOpcode),
            },
            Op::Tuple => self.tuple_to_mark(),
            Op::Tuple1 => self.tuple_of(1),
            Op::Tuple2 => self.tuple_of(2),
            Op::Tuple3 => self.tuple_of(3),
            Op::Append => self.append(),
            Op::Appends => self.appends(),
            Op::SetItems => self.set_items(),
            Op::GlobalOpcode => self.global(arg),
            Op::StackGlobal => self.stack_global(),
            Op::NewObj => self.new_obj(),
            Op::Build => self.build(),
            Op::Proto => match arg.as_uint() {
                Some(version) => self.proto(version),
                None => self.fail(ErrorKind::UnimplementedOpcode),
            },
            Op::Frame => match arg.as_ulong() {
                Some(len) => self.frame(len),
                None => self.fail(ErrorKind::UnimplementedOpcode),
            },
            _ => self.fail(ErrorKind::UnimplementedOpcode),
        }
    }

    /// Pushes a placeholder for the type that the two texts of `arg` name.
    fn global(&mut self, arg: Value)
        ensures
            final(self)@ == old(self)@.effect(Op::GlobalOpcode, arg@, Val::Nil),
            final(self).same_registry(old(self)),
    {
        if !arg.is_tuple() {
            self.fail(ErrorKind::UnimplementedOpcode);
            return ;
        }
        let mut parts = arg.as_tuple().unwrap();
        if parts.len() != 2 || !parts[0].is_string() || !parts[1].is_string() {
            self.fail(ErrorKind::UnimplementedOpcode);
            return ;
        }
        let ghost texts = values_view(parts@);
        let name = parts.pop().unwrap().as_string().unwrap();
        let module = parts.pop().unwrap().as_string().unwrap();
        assert(name@ == texts[1]->String_0);
        assert(module@ == texts[0]->String_0);
        self.push(Value::Object(Instance::new(name, module)));
    }

    /// Decodes one instruction with its argument.
    fn decode(&mut self) -> (r: Result<(Op, Value), ErrorKind>)
        ensures
            final(self)@ == (Machine { src: decode(old(self)@.src).src, ..old(self)@ }),
            final(self).same_registry(old(self)),
            final(self).stack == old(self).stack,
            match r {
                Ok(instr) => decode(old(self)@.src).instr == Ok::<(Op, Val), ErrorKind>(
                    (instr.0, instr.1@),
                ),
                Err(e) => decode(old(self)@.src).instr == Err::<(Op, Val), ErrorKind>(e),
            },
    {
        let byte = self.reader.next_byte()?;
        let op = Op::decode(byte)?;
        proof {
            lemma_code_injective(op, Op::of_byte(byte));
        }
        let arg = read_arg(&mut self.reader, op)?;
        Ok((op, arg))
    }

    /// Decodes one instruction with its argument and applies it. Returns
    /// whether the pass goes on: not after the stop instruction, and not
    /// after a failure, which [`VM::status`] and [`VM::result`] then report.
    /// A decoder that is not running stays as it is.
    pub fn step(&mut self) -> (r: bool)
        requires
            old(self).wf(),
        ensures
            final(self).wf(),
            old(self).steps_to(final(self)),
            r == (final(self)@.status == Status::Running),
            final(self)@.src.bytes == old(self)@.src.bytes,
            final(self)@.keys == old(self)@.keys,
            final(self)@.src.pos >= old(self)@.src.pos,
            r ==> final(self)@.src.pos > old(self)@.src.pos,
    {
        if self.status != Status::Running {
            proof {
                lemma_step(self@, Val::Nil);
            }
            return false;
        }
        let ghost before = self@;
        let ghost reply;
        match self.decode() {
            Err(e) => {
                self.fail(e);
                proof {
                    reply = Val::Nil;
                }
            },
            Ok((op, arg)) => {
                if op == Op::Reduce {
                    let ghost ready = *self;
                    assert(ready.top() == old(self).top());
                    assert(ready.transform() == old(self).transform());
                    self.reduce();
                    proof {
                        if before.dispatches() {
                            let out = choose|out: Value|
                                call_ensures(ready.transform(), (ready.top(),), out) && self@
                                    == ready@.reduce(out@);
                            reply = out@;
                        } else {
                            reply = Val::Nil;
                        }
                    }
                } else {
                    self.execute(op, arg);
                    proof {
                        reply = Val::Nil;
                    }
                }
            },
        }
        proof {
            assert(self@ == before.step(reply));
            lemma_step(before, reply);
        }
        self.status == Status::Running
    }

    /// Registers `ext` as the transform for the type `name` of `module`, in
    /// place of one that was registered for it before.
    pub fn load_extension(&mut self, module: &str, name: &str, ext: F)
        requires
            old(self).wf(),
            forall|v: Value| call_requires(ext, (v,)),
        ensures
            final(self).wf(),
            ({
                let key = module@ + seq!['.'] + name@;
                let keys = old(self)@.keys;
                if registered(keys, key) {
                    &&& final(self)@ == old(self)@
                    &&& final(self).transforms() == old(self).transforms().update(
                        slot(keys, key),
                        ext,
                    )
                } else {
                    &&& final(self)@ == (Machine { keys: keys.push(key), ..old(self)@ })
                    &&& final(self).transforms() == old(self).transforms().push(ext)
                }
            }),
    {
        let key = qualified_name(module, name);
        match self.find_transform(&key) {
            Some(i) => {
                self.transforms.set(i, ext);
            },
            None => {
                self.names.push(key);
                self.transforms.push(ext);
                assert(texts(self.names@) =~= old(self)@.keys.push(key@));
            },
        }
    }

    /// The outcome of the pass: the failure, if it was aborted; else the
    /// value on top of the stack, which is taken off. An empty stack, or the
    /// mark on top, is a failure.
    pub fn result(&mut self) -> (r: Result<Value, DecodeError>)
        requires
            old(self).wf(),
        ensures
            final(self).wf(),
            final(self).transforms() == old(self).transforms(),
            final(self)@ == old(self)@.popped(),
            match r {
                Ok(v) => old(self)@.outcome() == Ok::<Val, DecodeError>(v@) && mark_free(v@),
                Err(e) => old(self)@.outcome() == Err::<Val, DecodeError>(e),
            },
    {
        let offset = self.reader.position();
        match self.status {
            Status::Failed(kind) => Err(DecodeError { kind, offset }),
            _ => {
                if self.stack.len() == 0 {
                    Err(DecodeError { kind: ErrorKind::EmptyOrMalformedResult, offset })
                } else {
                    let v = self.pop();
                    if v.is_mark() {
                        Err(DecodeError { kind: ErrorKind::EmptyOrMalformedResult, offset })
                    } else {
                        Ok(v)
                    }
                }
            },
        }
    }

    /// Consumes `n` bytes of the input, where `n` is a count that came from
    /// the wire.
    pub fn read_n(&mut self, n: usize) -> (r: Result<Vec<u8>, DecodeError>)
        requires
            old(self).wf(),
        ensures
            final(self).wf(),
            final(self).transforms() == old(self).transforms(),
            match r {
                Ok(bytes) => old(self)@.src.refusal(n as int).is_none() && bytes@ == old(
                    self,
                )@.src.peek(n as int) && final(self)@ == (Machine {
                    src: old(self)@.src.skip(n as int),
                    ..old(self)@
                }),
                Err(e) => old(self)@.src.refusal(n as int) == Some(e.kind) && e.offset == old(
                    self,
                )@.src.pos && final(self)@ == old(self)@,
            },
    {
        let offset = self.reader.position();
        match self.reader.read_n(n) {
            Ok(bytes) => Ok(bytes),
            Err(kind) => Err(DecodeError { kind, offset }),
        }
    }

    /// Steps until the pass ends, and returns its outcome.
    pub fn decode_all(&mut self) -> (r: Result<Value, DecodeError>)
        requires
            old(self).wf(),
        ensures
            final(self).wf(),
            exists|trace: Seq<Self>|
                {
                    &&& old(self).runs(trace)
                    &&& trace.last()@.status != Status::Running
                    &&& final(self)@ == trace.last()@.popped()
                    &&& match r {
                        Ok(v) => trace.last()@.outcome() == Ok::<Val, DecodeError>(v@)
                            && mark_free(v@),
                        Err(e) => trace.last()@.outcome() == Err::<Val, DecodeError>(e),
                    }
                },
    {
        let ghost mut trace: Seq<Self> = seq![*self];
        loop
            invariant
                self.wf(),
                old(self).runs(trace),
                trace.last() == *self,
                self@.src.wf(),
            ensures
                self@.status != Status::Running,
            decreases self@.src.bytes.len() - self@.src.pos,
        {
            let ghost before = *self;
            let going = self.step();
            proof {
                let longer = trace.push(*self);
                assert forall|i: int| 0 <= i < longer.len() - 1 implies (
                #[trigger] longer[i]).steps_to(&longer[i + 1]) by {
                    if i < trace.len() - 1 {
                        assert(trace[i].steps_to(&trace[i + 1]));
                    }
                }
                trace = longer;
            }
            if !going {
                break ;
            }
        }
        let r = self.result();
        proof {
            assert(old(self).runs(trace));
        }
        r
    }
}

} // verus!
