//! The opcode table: the one-byte instruction encoding of the stream format.
//!
//! Every instruction of a stream starts with a single byte that selects an
//! [`Op`]. The table is a bijection between the recognised bytes and the
//! variants of `Op`; every other byte is rejected.

use crate::error::ErrorKind;
use vstd::prelude::*;

verus! {

pub const MARK: u8 = 40;

pub const EMPTY_TUPLE: u8 = 41;

pub const STOP: u8 = 46;

pub const POP: u8 = 48;

pub const POP_MARK: u8 = 49;

pub const DUP: u8 = 50;

pub const BINBYTES: u8 = 66;

pub const SHORT_BINBYTES: u8 = 67;

pub const FLOAT: u8 = 70;

pub const BINFLOAT: u8 = 71;

pub const INT: u8 = 73;

pub const BININT: u8 = 74;

pub const BININT1: u8 = 75;

pub const LONG: u8 = 76;

pub const BININT2: u8 = 77;

pub const NONE: u8 = 78;

pub const PERSID: u8 = 80;

pub const BINPERSID: u8 = 81;

pub const REDUCE: u8 = 82;

pub const STRING: u8 = 83;

pub const BINSTRING: u8 = 84;

pub const SHORT_BINSTRING: u8 = 85;

pub const UNICODE: u8 = 86;

pub const BINUNICODE: u8 = 88;

pub const EMPTY_LIST: u8 = 93;

pub const APPEND: u8 = 97;

pub const BUILD: u8 = 98;

pub const GLOBAL_OPCODE: u8 = 99;

pub const DICT: u8 = 100;

pub const APPENDS: u8 = 101;

pub const GET: u8 = 103;

pub const BINGET: u8 = 104;

pub const INST: u8 = 105;

pub const LONG_BINGET: u8 = 106;

pub const LIST: u8 = 108;

pub const OBJ: u8 = 111;

pub const PUT: u8 = 112;

pub const BINPUT: u8 = 113;

pub const LONG_BINPUT: u8 = 114;

pub const SET_ITEM: u8 = 115;

pub const TUPLE: u8 = 116;

pub const SET_ITEMS: u8 = 117;

pub const EMPTY_DICT: u8 = 125;

pub const PROTO: u8 = 128;

pub const NEW_OBJ: u8 = 129;

pub const EXT1: u8 = 130;

pub const EXT2: u8 = 131;

pub const EXT4: u8 = 132;

pub const TUPLE1: u8 = 133;

pub const TUPLE2: u8 = 134;

pub const TUPLE3: u8 = 135;

pub const NEWTRUE: u8 = 136;

pub const NEWFALSE: u8 = 137;

pub const LONG1: u8 = 138;

pub const LONG4: u8 = 139;

pub const SHORT_BINUNICODE: u8 = 140;

pub const BINUNICODE8: u8 = 141;

pub const BINBYTES8: u8 = 142;

pub const EMPTY_SET: u8 = 143;

pub const ADD_ITEMS: u8 = 144;

pub const FROZEN_SET: u8 = 145;

pub const NEW_OBJ_EX: u8 = 146;

pub const STACK_GLOBAL: u8 = 147;

pub const MEMOIZE: u8 = 148;

pub const FRAME: u8 = 149;

pub const BYTEARRAY8: u8 = 150;

pub const NEXT_BUFFER: u8 = 151;

pub const READONLY_BUFFER: u8 = 152;

/// One instruction of the stack machine.
#[derive(Clone, Copy, Debug, PartialEq, Eq, Structural)]
pub enum Op {
    Int,
    BinInt,
    BinInt1,
    BinInt2,
    Long,
    Long1,
    Long4,
    String,
    BinString,
    ShortBinstring,
    BinBytes,
    ShortBinbytes,
    BinBytes8,
    NoneOpcode,
    NewTrue,
    NewFalse,
    Unicode,
    ShortBinunicde,
    BinUnicode,
    BinUnicode8,
    Float,
    BinFloat,
    EmptyList,
    Append,
    Appends,
    List,
    EmptyTuple,
    Tuple,
    Tuple1,
    Tuple2,
    Tuple3,
    EmptyDict,
    Dict,
    SetItem,
    SetItems,
    EmptySet,
    AddItems,
    FrozenSet,
    Pop,
    Dup,
    Mark,
    PopMark,
    Get,
    BinGet,
    LongBinGet,
    Put,
    BinPut,
    LongBinPut,
    Memoize,
    Ext1,
    Ext2,
    Ext4,
    GlobalOpcode,
    StackGlobal,
    Reduce,
    Build,
    Inst,
    Obj,
    NewObj,
    NewObjEx,
    Proto,
    Stop,
    Frame,
    Persid,
    BinPersid,
    ByteArray8,
    NextBuffer,
    ReadonlyBuffer,
}

impl Op {
    /// The canonical byte of an instruction.
    pub open spec fn code(self) -> u8 {
        match self {
            Op::Int => INT,
            Op::BinInt => BININT,
            Op::BinInt1 => BININT1,
            Op::BinInt2 => BININT2,
            Op::Long => LONG,
            Op::Long1 => LONG1,
            Op::Long4 => LONG4,
            Op::String => STRING,
            Op::BinString => BINSTRING,
            Op::ShortBinstring => SHORT_BINSTRING,
            Op::BinBytes => BINBYTES,
            Op::ShortBinbytes => SHORT_BINBYTES,
            Op::BinBytes8 => BINBYTES8,
            Op::NoneOpcode => NONE,
            Op::NewTrue => NEWTRUE,
            Op::NewFalse => NEWFALSE,
            Op::Unicode => UNICODE,
            Op::ShortBinunicde => SHORT_BINUNICODE,
            Op::BinUnicode => BINUNICODE,
            Op::BinUnicode8 => BINUNICODE8,
            Op::Float => FLOAT,
            Op::BinFloat => BINFLOAT,
            Op::EmptyList => EMPTY_LIST,
            Op::Append => APPEND,
            Op::Appends => APPENDS,
            Op::List => LIST,
            Op::EmptyTuple => EMPTY_TUPLE,
            Op::Tuple => TUPLE,
            Op::Tuple1 => TUPLE1,
            Op::Tuple2 => TUPLE2,
            Op::Tuple3 => TUPLE3,
            Op::EmptyDict => EMPTY_DICT,
            Op::Dict => DICT,
            Op::SetItem => SET_ITEM,
            Op::SetItems => SET_ITEMS,
            Op::EmptySet => EMPTY_SET,
            Op::AddItems => ADD_ITEMS,
            Op::FrozenSet => FROZEN_SET,
            Op::Pop => POP,
            Op::Dup => DUP,
            Op::Mark => MARK,
            Op::PopMark => POP_MARK,
            Op::Get => GET,
            Op::BinGet => BINGET,
            Op::LongBinGet => LONG_BINGET,
            Op::Put => PUT,
            Op::BinPut => BINPUT,
            Op::LongBinPut => LONG_BINPUT,
            Op::Memoize => MEMOIZE,
            Op::Ext1 => EXT1,
            Op::Ext2 => EXT2,
            Op::Ext4 => EXT4,
            Op::GlobalOpcode => GLOBAL_OPCODE,
            Op::StackGlobal => STACK_GLOBAL,
            Op::Reduce => REDUCE,
            Op::Build => BUILD,
            Op::Inst => INST,
            Op::Obj => OBJ,
            Op::NewObj => NEW_OBJ,
            Op::NewObjEx => NEW_OBJ_EX,
            Op::Proto => PROTO,
            Op::Stop => STOP,
            Op::Frame => FRAME,
            Op::Persid => PERSID,
            Op::BinPersid => BINPERSID,
            Op::ByteArray8 => BYTEARRAY8,
            Op::NextBuffer => NEXT_BUFFER,
            Op::ReadonlyBuffer => READONLY_BUFFER,
        }
    }

    /// Whether some instruction is encoded by `byte`.
    pub open spec fn known(byte: u8) -> bool {
        exists|op: Op| op.code() == byte
    }

    /// The instruction encoded by `byte`, where there is one.
    pub open spec fn of_byte(byte: u8) -> Op {
        choose|op: Op| op.code() == byte
    }

    /// Encodes an instruction as its byte. Total: every instruction has one.
    pub fn encode(self) -> (byte: u8)
        ensures
            byte == self.code(),
    {
        match self {
            Op::Int => INT,
            Op::BinInt => BININT,
            Op::BinInt1 => BININT1,
            Op::BinInt2 => BININT2,
            Op::Long => LONG,
            Op::Long1 => LONG1,
            Op::Long4 => LONG4,
            Op::String => STRING,
            Op::BinString => BINSTRING,
            Op::ShortBinstring => SHORT_BINSTRING,
            Op::BinBytes => BINBYTES,
            Op::ShortBinbytes => SHORT_BINBYTES,
            Op::BinBytes8 => BINBYTES8,
            Op::NoneOpcode => NONE,
            Op::NewTrue => NEWTRUE,
            Op::NewFalse => NEWFALSE,
            Op::Unicode => UNICODE,
            Op::ShortBinunicde => SHORT_BINUNICODE,
            Op::BinUnicode => BINUNICODE,
            Op::BinUnicode8 => BINUNICODE8,
            Op::Float => FLOAT,
            Op::BinFloat => BINFLOAT,
            Op::EmptyList => EMPTY_LIST,
            Op::Append => APPEND,
            Op::Appends => APPENDS,
            Op::List => LIST,
            Op::EmptyTuple => EMPTY_TUPLE,
            Op::Tuple => TUPLE,
            Op::Tuple1 => TUPLE1,
            Op::Tuple2 => TUPLE2,
            Op::Tuple3 => TUPLE3,
            Op::EmptyDict => EMPTY_DICT,
            Op::Dict => DICT,
            Op::SetItem => SET_ITEM,
            Op::SetItems => SET_ITEMS,
            Op::EmptySet => EMPTY_SET,
            Op::AddItems => ADD_ITEMS,
            Op::FrozenSet => FROZEN_SET,
            Op::Pop => POP,
            Op::Dup => DUP,
            Op::Mark => MARK,
            Op::PopMark => POP_MARK,
            Op::Get => GET,
            Op::BinGet => BINGET,
            Op::LongBinGet => LONG_BINGET,
            Op::Put => PUT,
            Op::BinPut => BINPUT,
            Op::LongBinPut => LONG_BINPUT,
            Op::Memoize => MEMOIZE,
            Op::Ext1 => EXT1,
            Op::Ext2 => EXT2,
            Op::Ext4 => EXT4,
            Op::GlobalOpcode => GLOBAL_OPCODE,
            Op::StackGlobal => STACK_GLOBAL,
            Op::Reduce => REDUCE,
            Op::Build => BUILD,
            Op::Inst => INST,
            Op::Obj => OBJ,
            Op::NewObj => NEW_OBJ,
            Op::NewObjEx => NEW_OBJ_EX,
            Op::Proto => PROTO,
            Op::Stop => STOP,
            Op::Frame => FRAME,
            Op::Persid => PERSID,
            Op::BinPersid => BINPERSID,
            Op::ByteArray8 => BYTEARRAY8,
            Op::NextBuffer => NEXT_BUFFER,
            Op::ReadonlyBuffer => READONLY_BUFFER,
        }
    }

    /// Decodes a byte into the instruction it stands for, and rejects a byte
    /// that stands for none.
    pub fn decode(byte: u8) -> (r: Result<Op, ErrorKind>)
        ensures
            match r {
                Ok(op) => op.code() == byte,
                Err(e) => e == ErrorKind::UnknownOpcode && !Op::known(byte),
            },
    {
        let r = match byte {
            INT => Ok(Op::Int),
            BININT => Ok(Op::BinInt),
            BININT1 => Ok(Op::BinInt1),
            BININT2 => Ok(Op::BinInt2),
            LONG => Ok(Op::Long),
            LONG1 => Ok(Op::Long1),
            LONG4 => Ok(Op::Long4),
            STRING => Ok(Op::String),
            BINSTRING => Ok(Op::BinString),
            SHORT_BINSTRING => Ok(Op::ShortBinstring),
            BINBYTES => Ok(Op::BinBytes),
            SHORT_BINBYTES => Ok(Op::ShortBinbytes),
            BINBYTES8 => Ok(Op::BinBytes8),
            NONE => Ok(Op::NoneOpcode),
            NEWTRUE => Ok(Op::NewTrue),
            NEWFALSE => Ok(Op::NewFalse),
            UNICODE => Ok(Op::Unicode),
            SHORT_BINUNICODE => Ok(Op::ShortBinunicde),
            BINUNICODE => Ok(Op::BinUnicode),
            BINUNICODE8 => Ok(Op::BinUnicode8),
            FLOAT => Ok(Op::Float),
            BINFLOAT => Ok(Op::BinFloat),
            EMPTY_LIST => Ok(Op::EmptyList),
            APPEND => Ok(Op::Append),
            APPENDS => Ok(Op::Appends),
            LIST => Ok(Op::List),
            EMPTY_TUPLE => Ok(Op::EmptyTuple),
            TUPLE => Ok(Op::Tuple),
            TUPLE1 => Ok(Op::Tuple1),
            TUPLE2 => Ok(Op::Tuple2),
            TUPLE3 => Ok(Op::Tuple3),
            EMPTY_DICT => Ok(Op::EmptyDict),
            DICT => Ok(Op::Dict),
            SET_ITEM => Ok(Op::SetItem),
            SET_ITEMS => Ok(Op::SetItems),
            EMPTY_SET => Ok(Op::EmptySet),
            ADD_ITEMS => Ok(Op::AddItems),
            FROZEN_SET => Ok(Op::FrozenSet),
            POP => Ok(Op::Pop),
            DUP => Ok(Op::Dup),
            MARK => Ok(Op::Mark),
            POP_MARK => Ok(Op::PopMark),
            GET => Ok(Op::Get),
            BINGET => Ok(Op::BinGet),
            LONG_BINGET => Ok(Op::LongBinGet),
            PUT => Ok(Op::Put),
            BINPUT => Ok(Op::BinPut),
            LONG_BINPUT => Ok(Op::LongBinPut),
            MEMOIZE => Ok(Op::Memoize),
            EXT1 => Ok(Op::Ext1),
            EXT2 => Ok(Op::Ext2),
            EXT4 => Ok(Op::Ext4),
            GLOBAL_OPCODE => Ok(Op::GlobalOpcode),
            STACK_GLOBAL => Ok(Op::StackGlobal),
            REDUCE => Ok(Op::Reduce),
            BUILD => Ok(Op::Build),
            INST => Ok(Op::Inst),
            OBJ => Ok(Op::Obj),
            NEW_OBJ => Ok(Op::NewObj),
            NEW_OBJ_EX => Ok(Op::NewObjEx),
            PROTO => Ok(Op::Proto),
            STOP => Ok(Op::Stop),
            FRAME => Ok(Op::Frame),
            PERSID => Ok(Op::Persid),
            BINPERSID => Ok(Op::BinPersid),
            BYTEARRAY8 => Ok(Op::ByteArray8),
            NEXT_BUFFER => Ok(Op::NextBuffer),
            READONLY_BUFFER => Ok(Op::ReadonlyBuffer),
            _ => Err(ErrorKind::UnknownOpcode),
        };
        proof {
            if r.is_err() {
                assert forall|op: Op| op.code() != byte by {
                    lemma_code_cases(op);
                }
            }
        }
        r
    }
}

/// The byte of an instruction is one of the table's constants.
proof fn lemma_code_cases(op: Op)
    ensures

        op.code() == INT
            || op.code() == BININT
            || op.code() == BININT1
            || op.code() == BININT2
            || op.code() == LONG
            || op.code() == LONG1
            || op.code() == LONG4
            || op.code() == STRING
            || op.code() == BINSTRING
            || op.code() == SHORT_BINSTRING
            || op.code() == BINBYTES
            || op.code() == SHORT_BINBYTES
            || op.code() == BINBYTES8
            || op.code() == NONE
            || op.code() == NEWTRUE
            || op.code() == NEWFALSE
            || op.code() == UNICODE
            || op.code() == SHORT_BINUNICODE
            || op.code() == BINUNICODE
            || op.code() == BINUNICODE8
            || op.code() == FLOAT
            || op.code() == BINFLOAT
            || op.code() == EMPTY_LIST
            || op.code() == APPEND
            || op.code() == APPENDS
            || op.code() == LIST
            || op.code() == EMPTY_TUPLE
            || op.code() == TUPLE
            || op.code() == TUPLE1
            || op.code() == TUPLE2
            || op.code() == TUPLE3
            || op.code() == EMPTY_DICT
            || op.code() == DICT
            || op.code() == SET_ITEM
            || op.code() == SET_ITEMS
            || op.code() == EMPTY_SET
            || op.code() == ADD_ITEMS
            || op.code() == FROZEN_SET
            || op.code() == POP
            || op.code() == DUP
            || op.code() == MARK
            || op.code() == POP_MARK
            || op.code() == GET
            || op.code() == BINGET
            || op.code() == LONG_BINGET
            || op.code() == PUT
            || op.code() == BINPUT
            || op.code() == LONG_BINPUT
            || op.code() == MEMOIZE
            || op.code() == EXT1
            || op.code() == EXT2
            || op.code() == EXT4
            || op.code() == GLOBAL_OPCODE
            || op.code() == STACK_GLOBAL
            || op.code() == REDUCE
            || op.code() == BUILD
            || op.code() == INST
            || op.code() == OBJ
            || op.code() == NEW_OBJ
            || op.code() == NEW_OBJ_EX
            || op.code() == PROTO
            || op.code() == STOP
            || op.code() == FRAME
            || op.code() == PERSID
            || op.code() == BINPERSID
            || op.code() == BYTEARRAY8
            || op.code() == NEXT_BUFFER
            || op.code() == READONLY_BUFFER,
{
}

/// No two instructions share a byte.
pub proof fn lemma_code_injective(a: Op, b: Op)
    requires
        a.code() == b.code(),
    ensures
        a == b,
{
}

/// Decoding is the inverse of encoding: the instruction found for the byte of
/// `op` is `op` itself.
pub proof fn lemma_of_byte_code(op: Op)
    ensures
        Op::known(op.code()),
        Op::of_byte(op.code()) == op,
{
    lemma_code_injective(Op::of_byte(op.code()), op);
}

impl From<Op> for u8 {
    fn from(op: Op) -> (byte: u8) {
        op.encode()
    }
}

impl vstd::std_specs::convert::FromSpecImpl<Op> for u8 {
    open spec fn obeys_from_spec() -> bool {
        true
    }

    open spec fn from_spec(op: Op) -> u8 {
        op.code()
    }
}

} // verus!
