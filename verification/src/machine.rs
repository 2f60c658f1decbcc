//! The stack machine as a mathematical object.
//!
//! A [`Machine`] is the state of a decode pass: the byte source, the operand
//! stack, the memo table, the registered type names and the status.
//! [`Machine::step`] says what one instruction does to it. The executable
//! machine in [`crate::vm`] is proved to follow this model step by step.

use crate::error::{DecodeError, ErrorKind};
use crate::mapping::{put_all, text_keys};
use crate::model::{all_mark_free, mark_free, InstanceVal, Val};
use crate::op::Op;
use crate::reader::Source;
use crate::wire::{be_value, decimal_value, le_value, signed128, signed32, text_of};
use vstd::prelude::*;

verus! {

/// The highest protocol version that is accepted.
pub const MAX_VERSION: u8 = 5;

/// The widest integer, in bytes, that a length-prefixed integer may hold.
pub const LONG_WIDTH: usize = 16;

/// Where a decode pass stands.
#[derive(Clone, Copy, Debug, PartialEq, Eq, Structural)]
pub enum Status {
    /// The header was read; instructions are being executed.
    Running,
    /// The stop instruction was reached.
    Completed,
    /// The pass was aborted.
    Failed(ErrorKind),
}

/// The state of a decode pass.
pub struct Machine {
    pub src: Source,
    pub version: u8,
    pub stack: Seq<Val>,
    pub memo: Seq<Val>,
    pub status: Status,
    /// The keys for which a transform is registered.
    pub keys: Seq<Seq<char>>,
}

/// The argument of an instruction, or why it could not be read, and the
/// source behind what was consumed for it.
pub struct Fetched {
    pub arg: Result<Val, ErrorKind>,
    pub src: Source,
}

/// A field of `width` bytes, turned into a value by `make`.
pub open spec fn fixed(src: Source, width: int, make: spec_fn(Seq<u8>) -> Val) -> Fetched {
    if !src.has(width) {
        Fetched { arg: Err(ErrorKind::TruncatedRead), src }
    } else {
        Fetched { arg: Ok(make(src.peek(width))), src: src.skip(width) }
    }
}

/// `count` bytes, where `count` came from the wire, turned into a value by
/// `make`. The bytes are consumed also where `make` rejects them.
pub open spec fn payload(src: Source, count: int, make: spec_fn(Seq<u8>) -> Result<
    Val,
    ErrorKind,
>) -> Fetched {
    match src.refusal(count) {
        Some(e) => Fetched { arg: Err(e), src },
        None => Fetched { arg: make(src.peek(count)), src: src.skip(count) },
    }
}

/// A little-endian count of `width` bytes, then that many bytes.
pub open spec fn counted(src: Source, width: int, make: spec_fn(Seq<u8>) -> Result<
    Val,
    ErrorKind,
>) -> Fetched {
    if !src.has(width) {
        Fetched { arg: Err(ErrorKind::TruncatedRead), src }
    } else {
        payload(src.skip(width), le_value(src.peek(width)) as int, make)
    }
}

/// Bytes as a text value.
pub open spec fn as_text(bytes: Seq<u8>) -> Result<Val, ErrorKind> {
    match text_of(bytes) {
        Some(text) => Ok(Val::String(text)),
        None => Err(ErrorKind::InvalidTextEncoding),
    }
}

/// Bytes as a byte-string value.
pub open spec fn as_raw(bytes: Seq<u8>) -> Result<Val, ErrorKind> {
    Ok(Val::Bytes(bytes))
}

/// A line of decimal digits as a memo index.
pub open spec fn as_index(line: Seq<u8>) -> Result<Val, ErrorKind> {
    match decimal_value(line) {
        None => Err(ErrorKind::InvalidTextEncoding),
        Some(n) => if n > u32::MAX {
            Err(ErrorKind::MemoIndexOutOfRange)
        } else {
            Ok(Val::UInt(n as u32))
        },
    }
}

/// A line, turned into a value by `make`.
pub open spec fn line(src: Source, make: spec_fn(Seq<u8>) -> Result<Val, ErrorKind>) -> Fetched {
    if !src.has_line() {
        Fetched { arg: Err(ErrorKind::TruncatedRead), src }
    } else {
        Fetched { arg: make(src.peek(src.line_len())), src: src.skip(src.line_len() + 1) }
    }
}

/// Two lines, module and name, as a pair of texts.
pub open spec fn global_name(src: Source) -> Fetched {
    if !src.has_line() {
        Fetched { arg: Err(ErrorKind::TruncatedRead), src }
    } else {
        let module = src.peek(src.line_len());
        let behind = src.skip(src.line_len() + 1);
        if !behind.has_line() {
            Fetched { arg: Err(ErrorKind::TruncatedRead), src: behind }
        } else {
            let name = behind.peek(behind.line_len());
            let rest = behind.skip(behind.line_len() + 1);
            match (text_of(module), text_of(name)) {
                (Some(m), Some(n)) => Fetched {
                    arg: Ok(Val::Tuple(seq![Val::String(m), Val::String(n)])),
                    src: rest,
                },
                _ => Fetched { arg: Err(ErrorKind::InvalidTextEncoding), src: rest },
            }
        }
    }
}

/// A count of one byte, then a little-endian two's-complement integer of that
/// many bytes, read as if zero bytes filled it up to the full width.
pub open spec fn long1(src: Source) -> Fetched {
    if !src.has(1) {
        Fetched { arg: Err(ErrorKind::TruncatedRead), src }
    } else {
        let count = le_value(src.peek(1)) as int;
        let behind = src.skip(1);
        if count > LONG_WIDTH {
            Fetched { arg: Err(ErrorKind::UnimplementedOpcode), src: behind }
        } else {
            fixed(behind, count, |b: Seq<u8>| Val::Long(signed128(le_value(b)) as i128))
        }
    }
}

/// A signed little-endian count of four bytes, then that many bytes of text.
/// A negative count is beyond every limit.
pub open spec fn binstring(src: Source) -> Fetched {
    if !src.has(4) {
        Fetched { arg: Err(ErrorKind::TruncatedRead), src }
    } else {
        let count = signed32(le_value(src.peek(4)));
        if count < 0 {
            Fetched { arg: Err(ErrorKind::ResourceLimitExceeded), src: src.skip(4) }
        } else {
            payload(src.skip(4), count, |b: Seq<u8>| as_text(b))
        }
    }
}

/// The argument that follows the byte of `op` on the wire.
pub open spec fn fetch_arg(op: Op, src: Source) -> Fetched {
    match op {
        Op::BinInt => fixed(src, 4, |b: Seq<u8>| Val::Int(signed32(le_value(b)) as i32)),
        Op::BinInt1 => fixed(src, 1, |b: Seq<u8>| Val::UInt(le_value(b) as u32)),
        Op::BinInt2 => fixed(src, 2, |b: Seq<u8>| Val::UInt(le_value(b) as u32)),
        Op::BinFloat => fixed(src, 8, |b: Seq<u8>| Val::Float(be_value(b) as u64)),
        Op::Long1 => long1(src),
        Op::BinBytes => counted(src, 4, |b: Seq<u8>| as_raw(b)),
        Op::BinUnicode => counted(src, 4, |b: Seq<u8>| as_text(b)),
        Op::ShortBinunicde => counted(src, 1, |b: Seq<u8>| as_text(b)),
        Op::BinString => binstring(src),
        Op::BinGet | Op::BinPut | Op::Proto => fixed(
            src,
            1,
            |b: Seq<u8>| Val::UInt(le_value(b) as u32),
        ),
        Op::LongBinGet | Op::LongBinPut => fixed(
            src,
            4,
            |b: Seq<u8>| Val::UInt(le_value(b) as u32),
        ),
        Op::Get | Op::Put => line(src, |b: Seq<u8>| as_index(b)),
        Op::Frame => fixed(src, 8, |b: Seq<u8>| Val::ULong(le_value(b) as u128)),
        Op::GlobalOpcode => global_name(src),
        Op::Append
        | Op::Appends
        | Op::BinPersid
        | Op::Build
        | Op::EmptyDict
        | Op::EmptyList
        | Op::EmptyTuple
        | Op::Mark
        | Op::Memoize
        | Op::NewObj
        | Op::NewFalse
        | Op::NewTrue
        | Op::NoneOpcode
        | Op::Reduce
        | Op::SetItems
        | Op::StackGlobal
        | Op::Stop
        | Op::Tuple
        | Op::Tuple1
        | Op::Tuple2
        | Op::Tuple3 => Fetched { arg: Ok(Val::Nil), src },
        _ => Fetched { arg: Err(ErrorKind::UnimplementedOpcode), src },
    }
}

/// An instruction with its argument, or why none could be read, and the
/// source behind what was consumed.
pub struct Decoded {
    pub instr: Result<(Op, Val), ErrorKind>,
    pub src: Source,
}

/// Reads one instruction: the byte that selects it, then its argument.
pub open spec fn decode(src: Source) -> Decoded {
    if !src.has(1) {
        Decoded { instr: Err(ErrorKind::TruncatedRead), src }
    } else if !Op::known(src.bytes[src.pos]) {
        Decoded { instr: Err(ErrorKind::UnknownOpcode), src: src.skip(1) }
    } else {
        let op = Op::of_byte(src.bytes[src.pos]);
        let fetched = fetch_arg(op, src.skip(1));
        Decoded {
            instr: match fetched.arg {
                Ok(arg) => Ok((op, arg)),
                Err(e) => Err(e),
            },
            src: fetched.src,
        }
    }
}

/// Whether `i` is the place of the topmost mark.
pub open spec fn is_last_mark(stack: Seq<Val>, i: int) -> bool {
    &&& 0 <= i < stack.len()
    &&& stack[i] is Mark
    &&& forall|j: int| i < j < stack.len() ==> !(#[trigger] stack[j] is Mark)
}

/// Whether a mark is on the stack.
pub open spec fn has_mark(stack: Seq<Val>) -> bool {
    exists|i: int| is_last_mark(stack, i)
}

/// The place of the topmost mark.
pub open spec fn last_mark(stack: Seq<Val>) -> int {
    choose|i: int| is_last_mark(stack, i)
}

/// The operands above the topmost mark, in the order in which they were
/// pushed.
pub open spec fn run(stack: Seq<Val>) -> Seq<Val> {
    stack.skip(last_mark(stack) + 1)
}

/// A run of operands read as keys and values in turn.
pub open spec fn pairs_of(run: Seq<Val>) -> Seq<(Val, Val)> {
    Seq::new((run.len() / 2) as nat, |i: int| (run[2 * i], run[2 * i + 1]))
}

/// Whether no mark is among the topmost `count` operands.
pub open spec fn top_unmarked(stack: Seq<Val>, count: int) -> bool {
    forall|j: int| stack.len() - count <= j < stack.len() ==> !(#[trigger] stack[j] is Mark)
}

/// Whether a transform is registered under `key`.
pub open spec fn registered(keys: Seq<Seq<char>>, key: Seq<char>) -> bool {
    exists|i: int| 0 <= i < keys.len() && #[trigger] keys[i] == key
}

/// The place of `key` among the registered keys.
pub open spec fn slot(keys: Seq<Seq<char>>, key: Seq<char>) -> int {
    choose|i: int| 0 <= i < keys.len() && #[trigger] keys[i] == key
}

/// Whether the argument has the shape that the literal instruction pushes.
pub open spec fn literal(op: Op, arg: Val) -> bool {
    match op {
        Op::BinInt => arg is Int,
        Op::BinInt1 | Op::BinInt2 => arg is UInt,
        Op::BinFloat => arg is Float,
        Op::Long1 => arg is Long,
        Op::BinBytes => arg is Bytes,
        Op::BinUnicode | Op::ShortBinunicde | Op::BinString => arg is String,
        _ => false,
    }
}

impl Machine {
    /// The machine with `v` pushed.
    pub open spec fn push(self, v: Val) -> Machine {
        Machine { stack: self.stack.push(v), ..self }
    }

    /// The machine with the topmost `count` operands replaced by `v`.
    pub open spec fn fold(self, count: int, v: Val) -> Machine {
        Machine { stack: self.stack.take(self.stack.len() - count).push(v), ..self }
    }

    /// The machine, aborted.
    pub open spec fn fail(self, e: ErrorKind) -> Machine {
        Machine { status: Status::Failed(e), ..self }
    }

    /// Records the top of the stack in the memo table at `index`: in place
    /// of the entry there, or as the next entry.
    pub open spec fn remember(self, index: int) -> Machine {
        if self.stack.len() == 0 {
            self.fail(ErrorKind::StackUnderflow)
        } else if self.stack.last() is Mark {
            self.fail(ErrorKind::StackTypeMismatch)
        } else if index > self.memo.len() {
            self.fail(ErrorKind::MemoIndexOutOfRange)
        } else if index == self.memo.len() {
            Machine { memo: self.memo.push(self.stack.last()), ..self }
        } else {
            Machine { memo: self.memo.update(index, self.stack.last()), ..self }
        }
    }

    /// Pushes the memo entry at `index`.
    pub open spec fn recall(self, index: int) -> Machine {
        if index >= self.memo.len() {
            self.fail(ErrorKind::MemoIndexOutOfRange)
        } else {
            self.push(self.memo[index])
        }
    }

    /// Wraps the topmost `count` operands as a tuple.
    pub open spec fn tuple_of(self, count: int) -> Machine {
        if self.stack.len() < count {
            self.fail(ErrorKind::StackUnderflow)
        } else if !top_unmarked(self.stack, count) {
            self.fail(ErrorKind::StackTypeMismatch)
        } else {
            self.fold(count, Val::Tuple(self.stack.skip(self.stack.len() - count)))
        }
    }

    /// Wraps the operands above the topmost mark as a tuple, in place of the
    /// mark.
    pub open spec fn tuple_to_mark(self) -> Machine {
        if !has_mark(self.stack) {
            self.fail(ErrorKind::StackUnderflow)
        } else {
            Machine {
                stack: self.stack.take(last_mark(self.stack)).push(Val::Tuple(run(self.stack))),
                ..self
            }
        }
    }

    /// Appends the top of the stack to the list below it.
    pub open spec fn append(self) -> Machine {
        let n = self.stack.len() as int;
        if n < 2 {
            self.fail(ErrorKind::StackUnderflow)
        } else if self.stack[n - 1] is Mark {
            self.fail(ErrorKind::StackTypeMismatch)
        } else {
            match self.stack[n - 2] {
                Val::List(items) => self.fold(2, Val::List(items.push(self.stack[n - 1]))),
                _ => self.fail(ErrorKind::StackTypeMismatch),
            }
        }
    }

    /// Extends the list below the topmost mark by the operands above it.
    pub open spec fn appends(self) -> Machine {
        if !has_mark(self.stack) || last_mark(self.stack) == 0 {
            self.fail(ErrorKind::StackUnderflow)
        } else {
            let mark = last_mark(self.stack);
            match self.stack[mark - 1] {
                Val::List(items) => Machine {
                    stack: self.stack.take(mark - 1).push(Val::List(items + run(self.stack))),
                    ..self
                },
                _ => self.fail(ErrorKind::StackTypeMismatch),
            }
        }
    }

    /// Merges the operands above the topmost mark, read as keys and values
    /// in turn, into the mapping below the mark.
    pub open spec fn set_items(self) -> Machine {
        if !has_mark(self.stack) || last_mark(self.stack) == 0 || run(self.stack).len() % 2
            != 0 {
            self.fail(ErrorKind::StackUnderflow)
        } else {
            let mark = last_mark(self.stack);
            match self.stack[mark - 1] {
                Val::Dict(entries) => Machine {
                    stack: self.stack.take(mark - 1).push(
                        Val::Dict(put_all(entries, pairs_of(run(self.stack)))),
                    ),
                    ..self
                },
                _ => self.fail(ErrorKind::StackTypeMismatch),
            }
        }
    }

    /// Replaces two texts, module below name, by a placeholder for the type
    /// they name.
    pub open spec fn stack_global(self) -> Machine {
        let n = self.stack.len() as int;
        if n < 2 {
            self.fail(ErrorKind::StackUnderflow)
        } else {
            match (self.stack[n - 2], self.stack[n - 1]) {
                (Val::String(module), Val::String(name)) => self.fold(
                    2,
                    Val::Object(InstanceVal::fresh(name, module)),
                ),
                _ => self.fail(ErrorKind::StackTypeMismatch),
            }
        }
    }

    /// Attaches the tuple on top of the stack, as constructor arguments, to
    /// the placeholder below it.
    pub open spec fn new_obj(self) -> Machine {
        let n = self.stack.len() as int;
        if n < 2 {
            self.fail(ErrorKind::StackUnderflow)
        } else {
            match (self.stack[n - 2], self.stack[n - 1]) {
                (Val::Object(inst), Val::Tuple(args)) => self.fold(
                    2,
                    Val::Object(InstanceVal { args, ..inst }),
                ),
                _ => self.fail(ErrorKind::StackTypeMismatch),
            }
        }
    }

    /// Merges the mapping on top of the stack, as state, into the fields of
    /// the placeholder below it.
    pub open spec fn build(self) -> Machine {
        let n = self.stack.len() as int;
        if n < 2 {
            self.fail(ErrorKind::StackUnderflow)
        } else {
            match (self.stack[n - 2], self.stack[n - 1]) {
                (Val::Object(inst), Val::Dict(state)) => if !text_keys(state) {
                    self.fail(ErrorKind::MalformedFieldKey)
                } else {
                    self.fold(
                        2,
                        Val::Object(InstanceVal { fields: put_all(inst.fields, state), ..inst }),
                    )
                },
                _ => self.fail(ErrorKind::StackTypeMismatch),
            }
        }
    }

    /// Whether the stack holds the operands of a reconstruction request: a
    /// placeholder, and above it an argument that is not the mark.
    pub open spec fn reduce_ready(self) -> bool {
        &&& self.stack.len() >= 2
        &&& self.stack[self.stack.len() - 2] is Object
        &&& !(self.stack.last() is Mark)
    }

    /// The key of the type that a reconstruction request names.
    pub open spec fn reduce_key(self) -> Seq<char> {
        self.stack[self.stack.len() - 2]->Object_0.key()
    }

    /// Replaces a placeholder and the argument above it: by `reply`, what the
    /// transform registered for the type made of the argument, or, where no
    /// transform is registered, by a record of the request. A reply that
    /// holds the mark is refused, with the two operands gone.
    pub open spec fn reduce(self, reply: Val) -> Machine {
        let n = self.stack.len() as int;
        if n < 2 {
            self.fail(ErrorKind::StackUnderflow)
        } else if !self.reduce_ready() {
            self.fail(ErrorKind::StackTypeMismatch)
        } else if registered(self.keys, self.reduce_key()) {
            if mark_free(reply) {
                self.fold(2, reply)
            } else {
                Machine { stack: self.stack.take(n - 2), ..self }.fail(
                    ErrorKind::StackTypeMismatch,
                )
            }
        } else {
            self.fold(
                2,
                Val::Callable(self.stack[n - 2]->Object_0, Box::new(self.stack[n - 1])),
            )
        }
    }

    /// Records the protocol version, if it is one that is accepted.
    pub open spec fn proto(self, version: int) -> Machine {
        if version > MAX_VERSION {
            self.fail(ErrorKind::UnsupportedVersion)
        } else {
            Machine { version: version as u8, ..self }
        }
    }

    /// Enters a frame of `len` bytes.
    pub open spec fn frame(self, len: int) -> Machine {
        match self.src.frame_refusal(len) {
            Some(e) => self.fail(e),
            None => Machine { src: self.src.framed(len), ..self },
        }
    }

    /// What the instruction `op` with the argument `arg` does. `reply` is
    /// what a registered transform returned; it matters only where the
    /// instruction hands a request to one.
    pub open spec fn effect(self, op: Op, arg: Val, reply: Val) -> Machine {
        match op {
            Op::Stop => Machine { status: Status::Completed, ..self },
            Op::Mark => self.push(Val::Mark),
            Op::EmptyList => self.push(Val::List(Seq::empty())),
            Op::EmptyDict => self.push(Val::Dict(Seq::empty())),
            Op::EmptyTuple => self.push(Val::Tuple(Seq::empty())),
            Op::NewTrue => self.push(Val::Bool(true)),
            Op::NewFalse => self.push(Val::Bool(false)),
            Op::NoneOpcode => self.push(Val::Nil),
            Op::BinPersid => self,
            Op::BinInt
            | Op::BinInt1
            | Op::BinInt2
            | Op::BinFloat
            | Op::Long1
            | Op::BinBytes
            | Op::BinUnicode
            | Op::ShortBinunicde
            | Op::BinString => if literal(op, arg) {
                self.push(arg)
            } else {
                self.fail(ErrorKind::UnimplementedOpcode)
            },
            Op::Memoize => self.remember(self.memo.len() as int),
            Op::BinPut | Op::LongBinPut | Op::Put => match arg {
                Val::UInt(index) => self.remember(index as int),
                _ => self.fail(ErrorKind::UnimplementedOpcode),
            },
            Op::BinGet | Op::LongBinGet | Op::Get => match arg {
                Val::UInt(index) => self.recall(index as int),
                _ => self.fail(ErrorKind::UnimplementedOpcode),
            },
            Op::Tuple => self.tuple_to_mark(),
            Op::Tuple1 => self.tuple_of(1),
            Op::Tuple2 => self.tuple_of(2),
            Op::Tuple3 => self.tuple_of(3),
            Op::Append => self.append(),
            Op::Appends => self.appends(),
            Op::SetItems => self.set_items(),
            Op::GlobalOpcode => match arg {
                Val::Tuple(parts) => if parts.len() == 2 && parts[0] is String
                    && parts[1] is String {
                    self.push(
                        Val::Object(InstanceVal::fresh(parts[1]->String_0, parts[0]->String_0)),
                    )
                } else {
                    self.fail(ErrorKind::UnimplementedOpcode)
                },
                _ => self.fail(ErrorKind::UnimplementedOpcode),
            },
            Op::StackGlobal => self.stack_global(),
            Op::NewObj => self.new_obj(),
            Op::Build => self.build(),
            Op::Reduce => self.reduce(reply),
            Op::Proto => match arg {
                Val::UInt(version) => self.proto(version as int),
                _ => self.fail(ErrorKind::UnimplementedOpcode),
            },
            Op::Frame => match arg {
                Val::ULong(len) => self.frame(len as int),
                _ => self.fail(ErrorKind::UnimplementedOpcode),
            },
            _ => self.fail(ErrorKind::UnimplementedOpcode),
        }
    }

    /// Whether a reconstruction request on this stack goes to a registered
    /// transform.
    pub open spec fn calls_transform(self) -> bool {
        self.reduce_ready() && registered(self.keys, self.reduce_key())
    }

    /// Whether the next step hands a request to a registered transform.
    pub open spec fn dispatches(self) -> bool {
        &&& self.status == Status::Running
        &&& decode(self.src).instr matches Ok(instr)
        &&& instr.0 == Op::Reduce
        &&& self.calls_transform()
    }

    /// One step: decodes one instruction with its argument and applies it.
    /// A machine that is not running stays as it is. `reply` is what a
    /// registered transform returned, where the step hands a request to one.
    pub open spec fn step(self, reply: Val) -> Machine {
        if self.status != Status::Running {
            self
        } else {
            let decoded = decode(self.src);
            let ready = Machine { src: decoded.src, ..self };
            match decoded.instr {
                Err(e) => ready.fail(e),
                Ok(instr) => ready.effect(instr.0, instr.1, reply),
            }
        }
    }

    /// What a decode pass that ended here has to show: the failure, if it
    /// was aborted; else the value on top of the stack, which must be there
    /// and must not be the mark.
    pub open spec fn outcome(self) -> Result<Val, DecodeError> {
        match self.status {
            Status::Failed(kind) => Err(DecodeError { kind, offset: self.src.pos as usize }),
            _ => if self.stack.len() == 0 || self.stack.last() is Mark {
                Err(
                    DecodeError {
                        kind: ErrorKind::EmptyOrMalformedResult,
                        offset: self.src.pos as usize,
                    },
                )
            } else {
                Ok(self.stack.last())
            },
        }
    }

    /// The machine after its outcome was taken: one operand is gone, unless
    /// the pass was aborted or the stack is empty.
    pub open spec fn popped(self) -> Machine {
        if self.status is Failed || self.stack.len() == 0 {
            self
        } else {
            Machine { stack: self.stack.drop_last(), ..self }
        }
    }

    /// What holds of every state that a decode pass reaches: the cursor and
    /// the frame lie within the input, the version is an accepted one, the
    /// mark occurs on the stack only as an operand of its own, never inside
    /// one, and never in the memo table, and no key is registered twice.
    pub open spec fn wf(self) -> bool {
        &&& self.src.wf()
        &&& self.version <= MAX_VERSION
        &&& forall|i: int|
            0 <= i < self.stack.len() ==> (#[trigger] self.stack[i]) is Mark || mark_free(
                self.stack[i],
            )
        &&& all_mark_free(self.memo)
        &&& forall|i: int, j: int|
            0 <= i < j < self.keys.len() ==> #[trigger] self.keys[i] != #[trigger] self.keys[j]
    }
}

} // verus!
