//! What every step of the machine preserves.

use crate::error::ErrorKind;
use crate::machine::{
    as_index, as_raw, as_text, decode, fetch_arg, fixed, global_name, has_mark, is_last_mark,
    last_mark, line, pairs_of, payload, run, top_unmarked, Fetched, Machine, Status,
};
use crate::mapping::{has_key, lemma_place_bounds, place, position, put, put_all};
use crate::model::{
    all_mark_free, entries_mark_free, lemma_mark_free, mark_free, InstanceVal, Val,
};
use crate::wire::{be_value, le_value, signed128, signed32};
use crate::op::Op;
use crate::reader::Source;
use vstd::prelude::*;

verus! {

/// The place that `last_mark` gives is the place of the topmost mark.
pub proof fn lemma_last_mark(stack: Seq<Val>)
    requires
        has_mark(stack),
    ensures
        is_last_mark(stack, last_mark(stack)),
{
}

/// The topmost mark is where a mark with no mark above it stands.
pub proof fn lemma_last_mark_is(stack: Seq<Val>, i: int)
    requires
        is_last_mark(stack, i),
    ensures
        has_mark(stack),
        last_mark(stack) == i,
{
    let j = last_mark(stack);
    if i < j {
        assert(!(stack[j] is Mark));
    } else if j < i {
        assert(!(stack[i] is Mark));
    }
}

/// Putting an entry free of marks among entries free of marks leaves them so.
pub proof fn lemma_put_mark_free(entries: Seq<(Val, Val)>, key: Val, value: Val)
    requires
        entries_mark_free(entries),
        mark_free(key),
        mark_free(value),
    ensures
        entries_mark_free(put(entries, key, value)),
{
    let after = put(entries, key, value);
    if has_key(entries, key) {
        assert forall|i: int| 0 <= i < after.len() implies mark_free((#[trigger] after[i]).0)
            && mark_free(after[i].1) by {
            if i != position(entries, key) {
                assert(after[i] == entries[i]);
            }
        }
    } else {
        lemma_place_bounds(entries, key);
        let p = place(entries, key);
        assert forall|i: int| 0 <= i < after.len() implies mark_free((#[trigger] after[i]).0)
            && mark_free(after[i].1) by {
            if i < p {
                assert(after[i] == entries[i]);
            } else if i > p {
                assert(after[i] == entries[i - 1]);
            }
        }
    }
}

/// Putting entries free of marks among entries free of marks leaves them so.
pub proof fn lemma_put_all_mark_free(entries: Seq<(Val, Val)>, pairs: Seq<(Val, Val)>)
    requires
        entries_mark_free(entries),
        entries_mark_free(pairs),
    ensures
        entries_mark_free(put_all(entries, pairs)),
    decreases pairs.len(),
{
    if pairs.len() > 0 {
        assert forall|i: int| 0 <= i < pairs.drop_last().len() implies mark_free(
            (#[trigger] pairs.drop_last()[i]).0,
        ) && mark_free(pairs.drop_last()[i].1) by {
            assert(pairs.drop_last()[i] == pairs[i]);
        }
        lemma_put_all_mark_free(entries, pairs.drop_last());
        assert(mark_free(pairs[pairs.len() - 1].0) && mark_free(pairs[pairs.len() - 1].1));
        lemma_put_mark_free(
            put_all(entries, pairs.drop_last()),
            pairs.last().0,
            pairs.last().1,
        );
    }
}

/// What reading an argument may do to the source: move the cursor forward
/// within the input, and nothing else; and the argument holds no mark.
pub open spec fn sound(src: Source, fetched: Fetched) -> bool {
    &&& fetched.src.wf()
    &&& fetched.src.bytes == src.bytes
    &&& fetched.src.limit == src.limit
    &&& fetched.src.frame_end == src.frame_end
    &&& fetched.src.pos >= src.pos
    &&& fetched.arg matches Ok(v) ==> mark_free(v)
}

/// A field of fixed width is read soundly.
pub proof fn lemma_fixed(src: Source, width: int, make: spec_fn(Seq<u8>) -> Val)
    requires
        src.wf(),
        forall|b: Seq<u8>| mark_free(#[trigger] make(b)),
    ensures
        sound(src, fixed(src, width, make)),
{
}

/// Bytes whose count came from the wire are read soundly.
pub proof fn lemma_payload(
    src: Source,
    count: int,
    make: spec_fn(Seq<u8>) -> Result<Val, ErrorKind>,
)
    requires
        src.wf(),
        forall|b: Seq<u8>| (#[trigger] make(b)) matches Ok(v) ==> mark_free(v),
    ensures
        sound(src, payload(src, count, make)),
{
}

/// A line is read soundly.
pub proof fn lemma_line(src: Source, make: spec_fn(Seq<u8>) -> Result<Val, ErrorKind>)
    requires
        src.wf(),
        forall|b: Seq<u8>| (#[trigger] make(b)) matches Ok(v) ==> mark_free(v),
    ensures
        sound(src, line(src, make)),
{
    if src.has_line() {
        assert(src.line_ends_at(src.line_len()));
    }
}

/// The two lines of a global name are read soundly.
pub proof fn lemma_global_name(src: Source)
    requires
        src.wf(),
    ensures
        sound(src, global_name(src)),
{
    if src.has_line() {
        assert(src.line_ends_at(src.line_len()));
        let behind = src.skip(src.line_len() + 1);
        if behind.has_line() {
            assert(behind.line_ends_at(behind.line_len()));
            let f = global_name(src);
            if f.arg is Ok {
                let parts = f.arg->Ok_0->Tuple_0;
                assert(parts.len() == 2);
                assert forall|i: int| 0 <= i < parts.len() implies mark_free(
                    #[trigger] parts[i],
                ) by {
                    assert(parts[i] is String);
                }
            }
        }
    }
}

/// Reading an argument moves the cursor forward within the input and changes
/// nothing else of the source; the argument holds no mark.
pub proof fn lemma_fetch(op: Op, src: Source)
    requires
        src.wf(),
    ensures
        sound(src, fetch_arg(op, src)),
{
    match op {
        Op::BinInt => lemma_fixed(src, 4, |b: Seq<u8>| Val::Int(signed32(le_value(b)) as i32)),
        Op::BinInt1 | Op::BinGet | Op::BinPut | Op::Proto => lemma_fixed(
            src,
            1,
            |b: Seq<u8>| Val::UInt(le_value(b) as u32),
        ),
        Op::BinInt2 => lemma_fixed(src, 2, |b: Seq<u8>| Val::UInt(le_value(b) as u32)),
        Op::LongBinGet | Op::LongBinPut => lemma_fixed(
            src,
            4,
            |b: Seq<u8>| Val::UInt(le_value(b) as u32),
        ),
        Op::BinFloat => lemma_fixed(src, 8, |b: Seq<u8>| Val::Float(be_value(b) as u64)),
        Op::Frame => lemma_fixed(src, 8, |b: Seq<u8>| Val::ULong(le_value(b) as u128)),
        Op::Long1 => {
            if src.has(1) {
                lemma_fixed(
                    src.skip(1),
                    le_value(src.peek(1)) as int,
                    |b: Seq<u8>| Val::Long(signed128(le_value(b)) as i128),
                );
            }
        },
        Op::BinBytes => {
            if src.has(4) {
                lemma_payload(src.skip(4), le_value(src.peek(4)) as int, |b: Seq<u8>| as_raw(b));
            }
        },
        Op::BinUnicode => {
            if src.has(4) {
                lemma_payload(src.skip(4), le_value(src.peek(4)) as int, |b: Seq<u8>| as_text(b));
            }
        },
        Op::ShortBinunicde => {
            if src.has(1) {
                lemma_payload(src.skip(1), le_value(src.peek(1)) as int, |b: Seq<u8>| as_text(b));
            }
        },
        Op::BinString => {
            if src.has(4) {
                lemma_payload(
                    src.skip(4),
                    signed32(le_value(src.peek(4))),
                    |b: Seq<u8>| as_text(b),
                );
            }
        },
        Op::Get | Op::Put => lemma_line(src, |b: Seq<u8>| as_index(b)),
        Op::GlobalOpcode => lemma_global_name(src),
        _ => {},
    }
}

/// What the stack discipline says of an operand that is no mark.
pub open spec fn disciplined(stack: Seq<Val>) -> bool {
    forall|i: int| 0 <= i < stack.len() ==> (#[trigger] stack[i]) is Mark || mark_free(stack[i])
}

/// A disciplined stack stays so when its top gives way to a value that holds
/// no mark.
pub proof fn lemma_fold_disciplined(stack: Seq<Val>, keep: int, v: Val)
    requires
        disciplined(stack),
        0 <= keep <= stack.len(),
        v is Mark || mark_free(v),
    ensures
        disciplined(stack.take(keep).push(v)),
{
    let after = stack.take(keep).push(v);
    assert forall|i: int| 0 <= i < after.len() implies (#[trigger] after[i]) is Mark || mark_free(
        after[i],
    ) by {
        if i < keep {
            assert(after[i] == stack[i]);
        }
    }
}

/// The operands above a place above which no mark stands hold no mark.
pub proof fn lemma_tail_mark_free(stack: Seq<Val>, from: int)
    requires
        disciplined(stack),
        0 <= from <= stack.len(),
        forall|j: int| from <= j < stack.len() ==> !(#[trigger] stack[j] is Mark),
    ensures
        all_mark_free(stack.skip(from)),
{
    assert forall|i: int| 0 <= i < stack.skip(from).len() implies mark_free(
        #[trigger] stack.skip(from)[i],
    ) by {
        assert(stack.skip(from)[i] == stack[from + i]);
        assert(!(stack[from + i] is Mark));
    }
}

/// Pairs made of operands that hold no mark hold no mark.
pub proof fn lemma_pairs_mark_free(items: Seq<Val>)
    requires
        all_mark_free(items),
    ensures
        entries_mark_free(pairs_of(items)),
{
    assert forall|i: int| 0 <= i < pairs_of(items).len() implies mark_free(
        (#[trigger] pairs_of(items)[i]).0,
    ) && mark_free(pairs_of(items)[i].1) by {
        assert(mark_free(items[2 * i]));
        assert(mark_free(items[2 * i + 1]));
    }
}

/// Pushing a value that holds no mark, or the mark itself, keeps a machine
/// well-formed.
pub proof fn lemma_push(m: Machine, v: Val)
    requires
        m.wf(),
        v is Mark || mark_free(v),
    ensures
        m.push(v).wf(),
{
    assert(m.stack.take(m.stack.len() as int) =~= m.stack);
    lemma_fold_disciplined(m.stack, m.stack.len() as int, v);
}

/// Replacing operands on top by a value that holds no mark keeps a machine
/// well-formed.
pub proof fn lemma_fold(m: Machine, count: int, v: Val)
    requires
        m.wf(),
        0 <= count <= m.stack.len(),
        mark_free(v),
    ensures
        m.fold(count, v).wf(),
{
    lemma_fold_disciplined(m.stack, m.stack.len() - count, v);
}

/// Recording the top of the stack keeps a machine well-formed.
pub proof fn lemma_remember(m: Machine, index: int)
    requires
        m.wf(),
        0 <= index,
    ensures
        m.remember(index).wf(),
{
    let after = m.remember(index);
    if m.stack.len() > 0 && !(m.stack.last() is Mark) && index <= m.memo.len() {
        assert(mark_free(m.stack.last()));
        assert forall|i: int| 0 <= i < after.memo.len() implies mark_free(
            #[trigger] after.memo[i],
        ) by {
            if i != index {
                assert(after.memo[i] == m.memo[i]);
            }
        }
    }
}

/// Pushing a memo entry keeps a machine well-formed.
pub proof fn lemma_recall(m: Machine, index: int)
    requires
        m.wf(),
        0 <= index,
    ensures
        m.recall(index).wf(),
{
    if index < m.memo.len() {
        assert(mark_free(m.memo[index]));
        lemma_push(m, m.memo[index]);
    }
}

/// Wrapping operands as a tuple keeps a machine well-formed.
pub proof fn lemma_tuples(m: Machine, count: int)
    requires
        m.wf(),
        0 <= count,
    ensures
        m.tuple_of(count).wf(),
        m.tuple_to_mark().wf(),
{
    let s = m.stack;
    let n = s.len() as int;
    if n >= count && top_unmarked(s, count) {
        lemma_tail_mark_free(s, n - count);
        lemma_fold(m, count, Val::Tuple(s.skip(n - count)));
    }
    if has_mark(s) {
        lemma_last_mark(s);
        lemma_tail_mark_free(s, last_mark(s) + 1);
        lemma_fold_disciplined(s, last_mark(s), Val::Tuple(run(s)));
    }
}

/// Extending a list keeps a machine well-formed.
pub proof fn lemma_appends(m: Machine)
    requires
        m.wf(),
    ensures
        m.append().wf(),
        m.appends().wf(),
{
    let s = m.stack;
    let n = s.len() as int;
    if n >= 2 && !(s[n - 1] is Mark) && s[n - 2] is List {
        let items = s[n - 2]->List_0;
        assert(mark_free(s[n - 2]));
        assert(mark_free(s[n - 1]));
        assert forall|i: int| 0 <= i < items.push(s[n - 1]).len() implies mark_free(
            #[trigger] items.push(s[n - 1])[i],
        ) by {
            if i < items.len() {
                assert(mark_free(items[i]));
            }
        }
        lemma_fold(m, 2, Val::List(items.push(s[n - 1])));
    }
    if has_mark(s) && last_mark(s) != 0 {
        lemma_last_mark(s);
        let mark = last_mark(s);
        if s[mark - 1] is List {
            let items = s[mark - 1]->List_0;
            assert(mark_free(s[mark - 1]));
            lemma_tail_mark_free(s, mark + 1);
            assert forall|i: int| 0 <= i < (items + run(s)).len() implies mark_free(
                #[trigger] (items + run(s))[i],
            ) by {
                if i < items.len() {
                    assert(mark_free(items[i]));
                } else {
                    assert(mark_free(run(s)[i - items.len()]));
                }
            }
            lemma_fold_disciplined(s, mark - 1, Val::List(items + run(s)));
        }
    }
}

/// Merging pairs into a mapping keeps a machine well-formed.
pub proof fn lemma_set_items(m: Machine)
    requires
        m.wf(),
    ensures
        m.set_items().wf(),
{
    let s = m.stack;
    if has_mark(s) && last_mark(s) != 0 && run(s).len() % 2 == 0 {
        lemma_last_mark(s);
        let mark = last_mark(s);
        if s[mark - 1] is Dict {
            let entries = s[mark - 1]->Dict_0;
            assert(mark_free(s[mark - 1]));
            lemma_tail_mark_free(s, mark + 1);
            lemma_pairs_mark_free(run(s));
            lemma_put_all_mark_free(entries, pairs_of(run(s)));
            lemma_fold_disciplined(s, mark - 1, Val::Dict(put_all(entries, pairs_of(run(s)))));
        }
    }
}

/// The instructions that rebuild objects keep a machine well-formed.
pub proof fn lemma_objects(m: Machine, reply: Val)
    requires
        m.wf(),
    ensures
        m.stack_global().wf(),
        m.new_obj().wf(),
        m.build().wf(),
        m.reduce(reply).wf(),
{
    let s = m.stack;
    let n = s.len() as int;
    if n >= 2 {
        lemma_mark_free(s[n - 2]);
        lemma_mark_free(s[n - 1]);
        if s[n - 2] is String && s[n - 1] is String {
            lemma_mark_free(
                Val::Object(InstanceVal::fresh(s[n - 1]->String_0, s[n - 2]->String_0)),
            );
            lemma_fold(
                m,
                2,
                Val::Object(InstanceVal::fresh(s[n - 1]->String_0, s[n - 2]->String_0)),
            );
        }
        if s[n - 2] is Object {
            let inst = s[n - 2]->Object_0;
            assert(mark_free(s[n - 2]));
            if s[n - 1] is Tuple {
                assert(mark_free(s[n - 1]));
                lemma_mark_free(Val::Object(InstanceVal { args: s[n - 1]->Tuple_0, ..inst }));
                lemma_fold(m, 2, Val::Object(InstanceVal { args: s[n - 1]->Tuple_0, ..inst }));
            }
            if s[n - 1] is Dict {
                assert(mark_free(s[n - 1]));
                lemma_put_all_mark_free(inst.fields, s[n - 1]->Dict_0);
                lemma_mark_free(
                    Val::Object(
                        InstanceVal { fields: put_all(inst.fields, s[n - 1]->Dict_0), ..inst },
                    ),
                );
                lemma_fold(
                    m,
                    2,
                    Val::Object(
                        InstanceVal { fields: put_all(inst.fields, s[n - 1]->Dict_0), ..inst },
                    ),
                );
            }
            if !(s[n - 1] is Mark) {
                assert(mark_free(s[n - 1]));
                lemma_mark_free(Val::Callable(inst, Box::new(s[n - 1])));
                lemma_fold(m, 2, Val::Callable(inst, Box::new(s[n - 1])));
                if mark_free(reply) {
                    lemma_fold(m, 2, reply);
                }
                let cut = Machine { stack: s.take(n - 2), ..m };
                assert forall|i: int| 0 <= i < cut.stack.len() implies (
                #[trigger] cut.stack[i]) is Mark || mark_free(cut.stack[i]) by {
                    assert(cut.stack[i] == s[i]);
                }
            }
        }
    }
}

/// An instruction takes a machine that is well-formed to one that is, keeps
/// the input and the registered keys, and never moves the cursor back.
pub proof fn lemma_effect(m: Machine, op: Op, arg: Val, reply: Val)
    requires
        m.wf(),
        mark_free(arg),
    ensures
        m.effect(op, arg, reply).wf(),
        m.effect(op, arg, reply).keys == m.keys,
        m.effect(op, arg, reply).src.bytes == m.src.bytes,
        m.effect(op, arg, reply).src.pos >= m.src.pos,
{
    match op {
        Op::Mark => lemma_push(m, Val::Mark),
        Op::EmptyList => lemma_push(m, Val::List(Seq::empty())),
        Op::EmptyDict => lemma_push(m, Val::Dict(Seq::empty())),
        Op::EmptyTuple => lemma_push(m, Val::Tuple(Seq::empty())),
        Op::NewTrue => lemma_push(m, Val::Bool(true)),
        Op::NewFalse => lemma_push(m, Val::Bool(false)),
        Op::NoneOpcode => lemma_push(m, Val::Nil),
        Op::BinInt
        | Op::BinInt1
        | Op::BinInt2
        | Op::BinFloat
        | Op::Long1
        | Op::BinBytes
        | Op::BinUnicode
        | Op::ShortBinunicde
        | Op::BinString => lemma_push(m, arg),
        Op::GlobalOpcode => {
            if arg is Tuple && arg->Tuple_0.len() == 2 && arg->Tuple_0[0] is String
                && arg->Tuple_0[1] is String {
                lemma_mark_free(
                    Val::Object(
                        InstanceVal::fresh(
                            arg->Tuple_0[1]->String_0,
                            arg->Tuple_0[0]->String_0,
                        ),
                    ),
                );
                lemma_push(
                    m,
                    Val::Object(
                        InstanceVal::fresh(
                            arg->Tuple_0[1]->String_0,
                            arg->Tuple_0[0]->String_0,
                        ),
                    ),
                );
            }
        },
        Op::Memoize => lemma_remember(m, m.memo.len() as int),
        Op::BinPut | Op::LongBinPut | Op::Put => {
            if arg is UInt {
                lemma_remember(m, arg->UInt_0 as int);
            }
        },
        Op::BinGet | Op::LongBinGet | Op::Get => {
            if arg is UInt {
                lemma_recall(m, arg->UInt_0 as int);
            }
        },
        Op::Tuple => lemma_tuples(m, 0),
        Op::Tuple1 => lemma_tuples(m, 1),
        Op::Tuple2 => lemma_tuples(m, 2),
        Op::Tuple3 => lemma_tuples(m, 3),
        Op::Append | Op::Appends => lemma_appends(m),
        Op::SetItems => lemma_set_items(m),
        Op::StackGlobal | Op::NewObj | Op::Build | Op::Reduce => lemma_objects(m, reply),
        _ => {},
    }
}

/// Reading an instruction moves the cursor forward, by one byte at least
/// where an instruction was read, and changes nothing else of the source; the
/// argument holds no mark.
pub proof fn lemma_decode(src: Source)
    requires
        src.wf(),
    ensures
        decode(src).src.wf(),
        decode(src).src.bytes == src.bytes,
        decode(src).src.limit == src.limit,
        decode(src).src.pos >= src.pos,
        decode(src).instr matches Ok(instr) ==> mark_free(instr.1) && decode(src).src.pos
            > src.pos,
{
    if src.has(1) && Op::known(src.bytes[src.pos]) {
        lemma_fetch(Op::of_byte(src.bytes[src.pos]), src.skip(1));
    }
}

/// A step takes a machine that is well-formed to one that is, keeps the
/// input and the registered keys, never moves the cursor back, and moves it
/// forward where the machine was running and still is.
pub proof fn lemma_step(m: Machine, reply: Val)
    requires
        m.wf(),
    ensures
        m.step(reply).wf(),
        m.step(reply).keys == m.keys,
        m.step(reply).src.bytes == m.src.bytes,
        m.step(reply).src.pos >= m.src.pos,
        m.status == Status::Running && m.step(reply).status == Status::Running ==> m.step(
            reply,
        ).src.pos > m.src.pos,
        m.status != Status::Running ==> m.step(reply) == m,
{
    if m.status == Status::Running {
        let decoded = decode(m.src);
        lemma_decode(m.src);
        let ready = Machine { src: decoded.src, ..m };
        if decoded.instr is Ok {
            lemma_effect(ready, decoded.instr->Ok_0.0, decoded.instr->Ok_0.1, reply);
        }
    }
}

} // verus!
