//! Laws of the machine: what follows, for every state and every input, from
//! the definitions that the contracts are stated with.

use crate::error::{DecodeError, ErrorKind};
use crate::machine::{has_mark, is_last_mark, last_mark, pairs_of, registered, run, Machine};
use crate::mapping::{
    distinct_keys, has_key, law_one_representation, lemma_put, lemma_put_all_sorted,
    lemma_put_other, lookup, put_all, sorted_keys,
};
use crate::model::{mark_free, Val};
use crate::preserved::lemma_last_mark_is;
use crate::vm::header;
use crate::wire::{le_value, pow256, signed32};
use vstd::prelude::*;

verus! {

/// The stack after a mark and then `items` were pushed.
pub open spec fn marked(stack: Seq<Val>, items: Seq<Val>) -> Seq<Val> {
    stack.push(Val::Mark) + items
}

/// No item is the mark.
pub open spec fn unmarked(items: Seq<Val>) -> bool {
    forall|i: int| 0 <= i < items.len() ==> !(#[trigger] items[i] is Mark)
}

/// Keys and values in turn: the operands that pushing each pair, key first,
/// leaves on the stack.
pub open spec fn interleaved(pairs: Seq<(Val, Val)>) -> Seq<Val> {
    Seq::new(
        2 * pairs.len(),
        |i: int|
            if i % 2 == 0 {
                pairs[i / 2].0
            } else {
                pairs[i / 2].1
            },
    )
}

/// The value of the last pair with the key `key`.
pub open spec fn last_value(pairs: Seq<(Val, Val)>, key: Val) -> Option<Val>
    decreases pairs.len(),
{
    if pairs.len() == 0 {
        None
    } else if pairs.last().0 == key {
        Some(pairs.last().1)
    } else {
        last_value(pairs.drop_last(), key)
    }
}

/// The bytes of `value`, least significant first, `width` of them.
pub open spec fn le_bytes(value: nat, width: nat) -> Seq<u8>
    decreases width,
{
    if width == 0 {
        Seq::empty()
    } else {
        seq![(value % 256) as u8] + le_bytes(value / 256, (width - 1) as nat)
    }
}

/// The operands above a mark are what was pushed after it, and the mark is
/// where it was pushed.
pub proof fn lemma_marked(stack: Seq<Val>, items: Seq<Val>)
    requires
        unmarked(items),
    ensures
        has_mark(marked(stack, items)),
        last_mark(marked(stack, items)) == stack.len(),
        run(marked(stack, items)) == items,
        marked(stack, items).take(stack.len() as int) == stack,
{
    let s = marked(stack, items);
    assert forall|j: int| stack.len() < j < s.len() implies !(#[trigger] s[j] is Mark) by {
        assert(s[j] == items[j - stack.len() - 1]);
    }
    assert(is_last_mark(s, stack.len() as int));
    lemma_last_mark_is(s, stack.len() as int);
    assert(s.skip(stack.len() as int + 1) =~= items);
    assert(s.take(stack.len() as int) =~= stack);
}

/// A mark, then any number of values, then the tuple instruction: the values
/// become one tuple, in the order in which they were pushed, in place of the
/// mark.
pub proof fn law_tuple_keeps_order(m: Machine, items: Seq<Val>)
    requires
        unmarked(items),
    ensures
        (Machine { stack: marked(m.stack, items), ..m }).tuple_to_mark() == m.push(
            Val::Tuple(items),
        ),
{
    lemma_marked(m.stack, items);
}

/// The fixed-arity tuple instructions wrap the topmost operands in the order
/// in which they were pushed.
pub proof fn law_tuple_of(m: Machine, items: Seq<Val>)
    requires
        unmarked(items),
    ensures
        (Machine { stack: m.stack + items, ..m }).tuple_of(items.len() as int) == m.push(
            Val::Tuple(items),
        ),
{
    let s = m.stack + items;
    assert(s.skip(s.len() - items.len()) =~= items);
    assert(s.take(s.len() - items.len()) =~= m.stack);
    assert forall|j: int| s.len() - items.len() <= j < s.len() implies !(#[trigger] s[j] is Mark) by {
        assert(s[j] == items[j - m.stack.len()]);
    }
}

/// A list, a mark, then any number of values, then the appends instruction:
/// the list is extended by the values in the order in which they were pushed.
pub proof fn law_appends_keeps_order(m: Machine, list: Seq<Val>, items: Seq<Val>)
    requires
        unmarked(items),
    ensures
        (Machine { stack: marked(m.stack.push(Val::List(list)), items), ..m }).appends() == m.push(
            Val::List(list + items),
        ),
{
    let below = m.stack.push(Val::List(list));
    lemma_marked(below, items);
    assert(below.take(below.len() - 1) =~= m.stack);
    assert(marked(below, items).take(below.len() - 1) =~= m.stack);
}

/// The pairs that are read from interleaved keys and values are the pairs
/// that were interleaved.
pub proof fn lemma_pairs_of_interleaved(pairs: Seq<(Val, Val)>)
    ensures
        pairs_of(interleaved(pairs)) == pairs,
        interleaved(pairs).len() % 2 == 0,
{
    assert(pairs_of(interleaved(pairs)) =~= pairs);
}

/// A mapping, a mark, then keys and values in turn, then the set-items
/// instruction: the mapping is what putting each pair, first to last, makes
/// of it.
pub proof fn law_set_items(m: Machine, entries: Seq<(Val, Val)>, pairs: Seq<(Val, Val)>)
    requires
        unmarked(interleaved(pairs)),
    ensures
        (Machine {
            stack: marked(m.stack.push(Val::Dict(entries)), interleaved(pairs)),
            ..m
        }).set_items() == m.push(Val::Dict(put_all(entries, pairs))),
{
    let below = m.stack.push(Val::Dict(entries));
    lemma_marked(below, interleaved(pairs));
    lemma_pairs_of_interleaved(pairs);
    assert(marked(below, interleaved(pairs)).take(below.len() - 1) =~= m.stack);
}

/// After pairs were put, a key is mapped to the value of the last pair that
/// has it; a key that no pair has is mapped as before.
pub proof fn law_later_pair_wins(entries: Seq<(Val, Val)>, pairs: Seq<(Val, Val)>, key: Val)
    requires
        sorted_keys(entries),
    ensures
        lookup(put_all(entries, pairs), key) == match last_value(pairs, key) {
            Some(value) => Some(value),
            None => lookup(entries, key),
        },
    decreases pairs.len(),
{
    if pairs.len() > 0 {
        let before = put_all(entries, pairs.drop_last());
        lemma_put_all_sorted(entries, pairs.drop_last());
        law_later_pair_wins(entries, pairs.drop_last(), key);
        lemma_put(before, pairs.last().0, pairs.last().1);
        if pairs.last().0 != key {
            lemma_put_other(before, pairs.last().0, pairs.last().1, key);
        }
    }
}

/// The last pair with a key is a pair behind which no pair has that key.
pub proof fn lemma_last_value_at(pairs: Seq<(Val, Val)>, i: int)
    requires
        0 <= i < pairs.len(),
        forall|j: int| i < j < pairs.len() ==> (#[trigger] pairs[j]).0 != pairs[i].0,
    ensures
        last_value(pairs, pairs[i].0) == Some(pairs[i].1),
    decreases pairs.len(),
{
    if i < pairs.len() - 1 {
        assert(pairs[pairs.len() - 1].0 != pairs[i].0);
        assert forall|j: int| i < j < pairs.drop_last().len() implies (
        #[trigger] pairs.drop_last()[j]).0 != pairs.drop_last()[i].0 by {
            assert(pairs.drop_last()[j] == pairs[j]);
        }
        lemma_last_value_at(pairs.drop_last(), i);
    }
}

/// A key that no pair has has no last value.
pub proof fn lemma_last_value_none(pairs: Seq<(Val, Val)>, key: Val)
    requires
        forall|j: int| 0 <= j < pairs.len() ==> (#[trigger] pairs[j]).0 != key,
    ensures
        last_value(pairs, key).is_none(),
    decreases pairs.len(),
{
    if pairs.len() > 0 {
        assert(pairs[pairs.len() - 1].0 != key);
        assert forall|j: int| 0 <= j < pairs.drop_last().len() implies (
        #[trigger] pairs.drop_last()[j]).0 != key by {
            assert(pairs.drop_last()[j] == pairs[j]);
        }
        lemma_last_value_none(pairs.drop_last(), key);
    }
}

/// Pairs with keys of their own, put into an empty mapping, make a mapping
/// of as many entries, in which each key is mapped to its value.
pub proof fn law_set_items_on_empty(pairs: Seq<(Val, Val)>)
    requires
        distinct_keys(pairs),
    ensures
        put_all(Seq::empty(), pairs).len() == pairs.len(),
        forall|i: int|
            0 <= i < pairs.len() ==> lookup(put_all(Seq::empty(), pairs), (#[trigger] pairs[i]).0)
                == Some(pairs[i].1),
    decreases pairs.len(),
{
    let empty = Seq::<(Val, Val)>::empty();
    assert(sorted_keys(empty));
    assert forall|i: int| 0 <= i < pairs.len() implies lookup(
        put_all(empty, pairs),
        (#[trigger] pairs[i]).0,
    ) == Some(pairs[i].1) by {
        assert forall|j: int| i < j < pairs.len() implies (#[trigger] pairs[j]).0
            != pairs[i].0 by {}
        lemma_last_value_at(pairs, i);
        law_later_pair_wins(empty, pairs, pairs[i].0);
    }
    if pairs.len() > 0 {
        let shorter = pairs.drop_last();
        assert forall|i: int, j: int| 0 <= i < j < shorter.len() implies (
        #[trigger] shorter[i]).0 != (#[trigger] shorter[j]).0 by {
            assert(shorter[i] == pairs[i]);
            assert(shorter[j] == pairs[j]);
        }
        law_set_items_on_empty(shorter);
        lemma_put_all_sorted(empty, shorter);
        assert forall|j: int| 0 <= j < shorter.len() implies (#[trigger] shorter[j]).0
            != pairs.last().0 by {
            assert(shorter[j] == pairs[j]);
            assert(pairs[j].0 != pairs[pairs.len() - 1].0);
        }
        lemma_last_value_none(shorter, pairs.last().0);
        law_later_pair_wins(empty, shorter, pairs.last().0);
        assert(!has_key(empty, pairs.last().0));
        assert(!has_key(put_all(empty, shorter), pairs.last().0));
        lemma_put(put_all(empty, shorter), pairs.last().0, pairs.last().1);
    }
}

/// The mapping that pairs make does not depend on the order in which they
/// are put: two runs of pairs that give every key the same last value make
/// the same mapping of the same entries.
pub proof fn law_order_of_pairs_is_immaterial(
    entries: Seq<(Val, Val)>,
    first: Seq<(Val, Val)>,
    second: Seq<(Val, Val)>,
)
    requires
        sorted_keys(entries),
        forall|key: Val| last_value(first, key) == last_value(second, key),
    ensures
        put_all(entries, first) == put_all(entries, second),
{
    lemma_put_all_sorted(entries, first);
    lemma_put_all_sorted(entries, second);
    assert forall|key: Val|
        lookup(put_all(entries, first), key) == lookup(put_all(entries, second), key) by {
        law_later_pair_wins(entries, first, key);
        law_later_pair_wins(entries, second, key);
    }
    law_one_representation(put_all(entries, first), put_all(entries, second));
}

/// What was stored in the memo table is what is recalled from it: a value
/// stored at an index and then recalled from it is pushed as it was stored.
pub proof fn law_memo_gives_back(m: Machine, index: int)
    requires
        m.stack.len() > 0,
        !(m.stack.last() is Mark),
        0 <= index <= m.memo.len(),
    ensures
        m.remember(index).recall(index) == m.remember(index).push(m.stack.last()),
{
}

/// A step removes no memo entry, and changes none but to the top of the
/// stack.
pub proof fn law_memo_persists(m: Machine, reply: Val, index: int)
    requires
        0 <= index < m.memo.len(),
    ensures
        m.step(reply).memo.len() >= m.memo.len(),
        m.step(reply).memo[index] == m.memo[index] || (m.stack.len() > 0 && m.step(
            reply,
        ).memo[index] == m.stack.last()),
{
}

/// A reconstruction request for a type with a registered transform is
/// replaced by what the transform returned; for a type without one it is
/// kept, with the placeholder and the argument as they were.
pub proof fn law_reduce(m: Machine, reply: Val)
    requires
        m.reduce_ready(),
    ensures
        registered(m.keys, m.reduce_key()) && mark_free(reply) ==> m.reduce(reply) == m.fold(
            2,
            reply,
        ),
        !registered(m.keys, m.reduce_key()) ==> m.reduce(reply) == m.fold(
            2,
            Val::Callable(
                m.stack[m.stack.len() - 2]->Object_0,
                Box::new(m.stack[m.stack.len() - 1]),
            ),
        ),
{
}

/// A stream whose first byte is not the protocol instruction is refused as
/// having a bad header, with one byte consumed.
pub proof fn law_bad_magic(input: Seq<u8>)
    requires
        input.len() > 0,
        input[0] != 0x80,
    ensures
        header(input) == Err::<u8, DecodeError>(
            DecodeError { kind: ErrorKind::BadMagicHeader, offset: 1 },
        ),
{
}

/// A number that fits `width` bytes is what its little-endian bytes decode
/// to.
pub proof fn law_le_round_trip(value: nat, width: nat)
    requires
        value < pow256(width),
    ensures
        le_bytes(value, width).len() == width,
        le_value(le_bytes(value, width)) == value,
    decreases width,
{
    if width > 0 {
        assert(value / 256 < pow256((width - 1) as nat)) by (nonlinear_arith)
            requires
                value < 256 * pow256((width - 1) as nat),
        ;
        law_le_round_trip(value / 256, (width - 1) as nat);
        let bytes = le_bytes(value, width);
        assert(bytes.drop_first() =~= le_bytes(value / 256, (width - 1) as nat));
        assert(bytes[0] == (value % 256) as u8);
    } else {
        assert(le_bytes(value, width).len() == 0);
    }
}

/// A 32-bit two's-complement number is what its pattern is read as.
pub proof fn law_signed32_round_trip(x: i32)
    ensures
        signed32(
            (if x < 0 {
                x + 0x1_0000_0000
            } else {
                x as int
            }) as nat,
        ) == x,
{
}

} // verus!
