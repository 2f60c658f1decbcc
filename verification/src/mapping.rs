//! Mappings as sequences of entries.
//!
//! The entries of a mapping stand in the order of their keys, and no key
//! occurs twice. So two mappings that map the same keys to the same values
//! are the same sequence, whatever the order in which their entries were
//! put.

use crate::model::Val;
use crate::order::{lemma_irreflexive, lemma_total, lemma_transitive, lt};
use vstd::prelude::*;

verus! {

/// Whether `key` is the key of some entry.
pub open spec fn has_key(entries: Seq<(Val, Val)>, key: Val) -> bool {
    exists|i: int| 0 <= i < entries.len() && (#[trigger] entries[i]).0 == key
}

/// The position of an entry with key `key`, where there is one.
pub open spec fn position(entries: Seq<(Val, Val)>, key: Val) -> int {
    choose|i: int| 0 <= i < entries.len() && (#[trigger] entries[i]).0 == key
}

/// The value that `key` is mapped to.
pub open spec fn lookup(entries: Seq<(Val, Val)>, key: Val) -> Option<Val> {
    if has_key(entries, key) {
        Some(entries[position(entries, key)].1)
    } else {
        None
    }
}

/// No key occurs in two entries.
pub open spec fn distinct_keys(entries: Seq<(Val, Val)>) -> bool {
    forall|i: int, j: int|
        0 <= i < j < entries.len() ==> (#[trigger] entries[i]).0 != (#[trigger] entries[j]).0
}

/// The entries stand in the order of their keys: each key comes before the
/// keys behind it.
pub open spec fn sorted_keys(entries: Seq<(Val, Val)>) -> bool {
    forall|i: int, j: int|
        0 <= i < j < entries.len() ==> lt((#[trigger] entries[i]).0, (#[trigger] entries[j]).0)
}

/// Whether `i` is the place of `key` among the entries: the keys before it
/// come before `key`, and `key` comes before the keys from there on.
pub open spec fn is_place(entries: Seq<(Val, Val)>, key: Val, i: int) -> bool {
    &&& 0 <= i <= entries.len()
    &&& forall|j: int| 0 <= j < i ==> lt((#[trigger] entries[j]).0, key)
    &&& forall|j: int| i <= j < entries.len() ==> lt(key, (#[trigger] entries[j]).0)
}

/// The place of a key that no entry has: the number of keys that come before
/// it.
pub open spec fn place(entries: Seq<(Val, Val)>, key: Val) -> int
    decreases entries.len(),
{
    if entries.len() == 0 {
        0
    } else {
        place(entries.drop_last(), key) + if lt(entries.last().0, key) {
            1int
        } else {
            0int
        }
    }
}

/// The entries after `key` is mapped to `value`: an entry with that key gets
/// the new value, a new key gets an entry at its place.
pub open spec fn put(entries: Seq<(Val, Val)>, key: Val, value: Val) -> Seq<(Val, Val)> {
    if has_key(entries, key) {
        entries.update(position(entries, key), (key, value))
    } else {
        entries.insert(place(entries, key), (key, value))
    }
}

/// The entries after each pair of `pairs` was put, first to last.
pub open spec fn put_all(entries: Seq<(Val, Val)>, pairs: Seq<(Val, Val)>) -> Seq<(Val, Val)>
    decreases pairs.len(),
{
    if pairs.len() == 0 {
        entries
    } else {
        put(put_all(entries, pairs.drop_last()), pairs.last().0, pairs.last().1)
    }
}

/// Every key is text.
pub open spec fn text_keys(entries: Seq<(Val, Val)>) -> bool {
    forall|i: int| 0 <= i < entries.len() ==> (#[trigger] entries[i]).0 is String
}

/// Keys that stand in order are distinct.
pub proof fn lemma_sorted_distinct(entries: Seq<(Val, Val)>)
    requires
        sorted_keys(entries),
    ensures
        distinct_keys(entries),
{
    assert forall|i: int, j: int| 0 <= i < j < entries.len() implies (#[trigger] entries[i]).0 != (
    #[trigger] entries[j]).0 by {
        lemma_irreflexive(entries[i].0);
    }
}

/// A key that is present is found where it stands.
pub proof fn lemma_lookup_at(entries: Seq<(Val, Val)>, i: int)
    requires
        distinct_keys(entries),
        0 <= i < entries.len(),
    ensures
        has_key(entries, entries[i].0),
        position(entries, entries[i].0) == i,
        lookup(entries, entries[i].0) == Some(entries[i].1),
{
    let p = position(entries, entries[i].0);
    if p < i {
        assert(entries[p].0 != entries[i].0);
    } else if i < p {
        assert(entries[i].0 != entries[p].0);
    }
}

/// A key has one place at most.
pub proof fn lemma_place_unique(entries: Seq<(Val, Val)>, key: Val, i: int, j: int)
    requires
        is_place(entries, key, i),
        is_place(entries, key, j),
    ensures
        i == j,
{
    if i < j {
        assert(lt(entries[i].0, key));
        assert(lt(key, entries[i].0));
        lemma_transitive(key, entries[i].0, key);
        lemma_irreflexive(key);
    } else if j < i {
        assert(lt(entries[j].0, key));
        assert(lt(key, entries[j].0));
        lemma_transitive(key, entries[j].0, key);
        lemma_irreflexive(key);
    }
}

/// The place of a key lies within the entries.
pub proof fn lemma_place_bounds(entries: Seq<(Val, Val)>, key: Val)
    ensures
        0 <= place(entries, key) <= entries.len(),
    decreases entries.len(),
{
    if entries.len() > 0 {
        lemma_place_bounds(entries.drop_last(), key);
    }
}

/// Among entries that stand in order, the place of a key that no entry has
/// is where the keys before it end and the keys behind it begin.
pub proof fn lemma_place_exists(entries: Seq<(Val, Val)>, key: Val)
    requires
        sorted_keys(entries),
        !has_key(entries, key),
    ensures
        is_place(entries, key, place(entries, key)),
    decreases entries.len(),
{
    if entries.len() > 0 {
        let shorter = entries.drop_last();
        let n = entries.len() - 1;
        let last = entries[n].0;
        assert forall|i: int, j: int| 0 <= i < j < shorter.len() implies lt(
            (#[trigger] shorter[i]).0,
            (#[trigger] shorter[j]).0,
        ) by {
            assert(shorter[i] == entries[i] && shorter[j] == entries[j]);
        }
        if has_key(shorter, key) {
            let p = position(shorter, key);
            assert(entries[p].0 == key);
        }
        lemma_place_exists(shorter, key);
        let p = place(shorter, key);
        assert(entries[n].0 != key);
        lemma_total(last, key);
        if lt(last, key) {
            if p < shorter.len() {
                assert(lt(key, shorter[p].0));
                assert(shorter[p] == entries[p]);
                assert(lt(entries[p].0, entries[n].0));
                lemma_transitive(key, entries[p].0, last);
                lemma_transitive(key, last, key);
                lemma_irreflexive(key);
            }
            assert forall|j: int| 0 <= j < entries.len() implies lt(
                (#[trigger] entries[j]).0,
                key,
            ) by {
                if j < n {
                    assert(shorter[j] == entries[j]);
                }
            }
        } else {
            assert forall|j: int| 0 <= j < p implies lt((#[trigger] entries[j]).0, key) by {
                assert(shorter[j] == entries[j]);
            }
            assert forall|j: int| p <= j < entries.len() implies lt(
                key,
                (#[trigger] entries[j]).0,
            ) by {
                if j < n {
                    assert(shorter[j] == entries[j]);
                }
            }
        }
    }
}

/// Putting keeps the keys in order, maps the key to the value, leaves every
/// other key as it was, and adds an entry where the key is new.
pub proof fn lemma_put(entries: Seq<(Val, Val)>, key: Val, value: Val)
    requires
        sorted_keys(entries),
    ensures
        sorted_keys(put(entries, key, value)),
        distinct_keys(put(entries, key, value)),
        lookup(put(entries, key, value), key) == Some(value),
        forall|other: Val|
            other != key ==> #[trigger] lookup(put(entries, key, value), other) == lookup(
                entries,
                other,
            ),
        put(entries, key, value).len() == entries.len() + if has_key(entries, key) {
            0int
        } else {
            1int
        },
{
    let after = put(entries, key, value);
    lemma_sorted_distinct(entries);
    if has_key(entries, key) {
        let p = position(entries, key);
        assert forall|i: int, j: int| 0 <= i < j < after.len() implies lt(
            (#[trigger] after[i]).0,
            (#[trigger] after[j]).0,
        ) by {
            assert(lt(entries[i].0, entries[j].0));
        }
        lemma_sorted_distinct(after);
        assert(after[p] == (key, value));
        lemma_lookup_at(after, p);
    } else {
        lemma_place_exists(entries, key);
        let p = place(entries, key);
        assert forall|i: int, j: int| 0 <= i < j < after.len() implies lt(
            (#[trigger] after[i]).0,
            (#[trigger] after[j]).0,
        ) by {
            if j < p {
                assert(lt(entries[i].0, entries[j].0));
            } else if j == p {
                assert(lt(entries[i].0, key));
            } else if i < p {
                assert(lt(entries[i].0, entries[j - 1].0));
            } else if i == p {
                assert(lt(key, entries[j - 1].0));
            } else {
                assert(lt(entries[i - 1].0, entries[j - 1].0));
            }
        }
        lemma_sorted_distinct(after);
        assert(after[p] == (key, value));
        lemma_lookup_at(after, p);
    }
    assert forall|other: Val| other != key implies #[trigger] lookup(after, other) == lookup(
        entries,
        other,
    ) by {
        lemma_put_other(entries, key, value, other);
    }
}

/// Putting one key does not change what another key is mapped to.
pub proof fn lemma_put_other(entries: Seq<(Val, Val)>, key: Val, value: Val, other: Val)
    requires
        sorted_keys(entries),
        other != key,
    ensures
        lookup(put(entries, key, value), other) == lookup(entries, other),
        has_key(put(entries, key, value), other) == has_key(entries, other),
{
    let after = put(entries, key, value);
    lemma_sorted_distinct(entries);
    if has_key(entries, key) {
        if has_key(entries, other) {
            let q = position(entries, other);
            assert(after[q] == entries[q]);
            assert(has_key(after, other));
            let q2 = position(after, other);
            assert(entries[q2].0 == other);
            if q2 < q {
                assert(entries[q2].0 != entries[q].0);
            } else if q < q2 {
                assert(entries[q].0 != entries[q2].0);
            }
        } else if has_key(after, other) {
            let q2 = position(after, other);
            assert(entries[q2].0 == other);
        }
    } else {
        lemma_place_exists(entries, key);
        let p = place(entries, key);
        if has_key(entries, other) {
            let q = position(entries, other);
            let q1 = if q < p {
                q
            } else {
                q + 1
            };
            assert(after[q1] == entries[q]);
            assert(has_key(after, other));
            let q2 = position(after, other);
            assert(q2 != p);
            let back = if q2 < p {
                q2
            } else {
                q2 - 1
            };
            assert(entries[back] == after[q2]);
            if back < q {
                assert(entries[back].0 != entries[q].0);
            } else if q < back {
                assert(entries[q].0 != entries[back].0);
            }
        } else if has_key(after, other) {
            let q2 = position(after, other);
            assert(q2 != p);
            let back = if q2 < p {
                q2
            } else {
                q2 - 1
            };
            assert(entries[back] == after[q2]);
        }
    }
}

/// Putting pairs keeps the keys in order.
pub proof fn lemma_put_all_sorted(entries: Seq<(Val, Val)>, pairs: Seq<(Val, Val)>)
    requires
        sorted_keys(entries),
    ensures
        sorted_keys(put_all(entries, pairs)),
    decreases pairs.len(),
{
    if pairs.len() > 0 {
        lemma_put_all_sorted(entries, pairs.drop_last());
        lemma_put(put_all(entries, pairs.drop_last()), pairs.last().0, pairs.last().1);
    }
}

/// Entries that stand in order and map the same keys to the same values are
/// the same entries.
pub proof fn law_one_representation(a: Seq<(Val, Val)>, b: Seq<(Val, Val)>)
    requires
        sorted_keys(a),
        sorted_keys(b),
        forall|key: Val| lookup(a, key) == lookup(b, key),
    ensures
        a == b,
    decreases a.len(),
{
    lemma_sorted_distinct(a);
    lemma_sorted_distinct(b);
    if a.len() == 0 {
        if b.len() > 0 {
            lemma_lookup_at(b, 0);
            assert(lookup(a, b[0].0) == lookup(b, b[0].0));
        }
        assert(a =~= b);
    } else if b.len() == 0 {
        lemma_lookup_at(a, 0);
        assert(lookup(a, a[0].0) == lookup(b, a[0].0));
    } else {
        // The last entries are the same: each has the greatest key.
        let la = a.len() - 1;
        let lb = b.len() - 1;
        lemma_lookup_at(a, la);
        lemma_lookup_at(b, lb);
        assert(lookup(b, a[la].0) == lookup(a, a[la].0));
        assert(lookup(a, b[lb].0) == lookup(b, b[lb].0));
        let ib = position(b, a[la].0);
        let ia = position(a, b[lb].0);
        if ib < lb {
            assert(lt(b[ib].0, b[lb].0));
            if ia < la {
                assert(lt(a[ia].0, a[la].0));
                lemma_transitive(a[la].0, b[lb].0, a[la].0);
                lemma_irreflexive(a[la].0);
            } else {
                lemma_irreflexive(a[la].0);
            }
        }
        assert(ib == lb);
        assert(a[la] == b[lb]);
        let sa = a.drop_last();
        let sb = b.drop_last();
        assert forall|i: int, j: int| 0 <= i < j < sa.len() implies lt(
            (#[trigger] sa[i]).0,
            (#[trigger] sa[j]).0,
        ) by {
            assert(sa[i] == a[i] && sa[j] == a[j]);
        }
        assert forall|i: int, j: int| 0 <= i < j < sb.len() implies lt(
            (#[trigger] sb[i]).0,
            (#[trigger] sb[j]).0,
        ) by {
            assert(sb[i] == b[i] && sb[j] == b[j]);
        }
        assert forall|key: Val| lookup(sa, key) == lookup(sb, key) by {
            lemma_drop_last_lookup(a, key);
            lemma_drop_last_lookup(b, key);
            assert(lookup(a, key) == lookup(b, key));
        }
        law_one_representation(sa, sb);
        assert(a =~= sa.push(a[la]));
        assert(b =~= sb.push(b[lb]));
    }
}

/// Without its last entry a mapping maps every key but the last as before.
pub proof fn lemma_drop_last_lookup(entries: Seq<(Val, Val)>, key: Val)
    requires
        distinct_keys(entries),
        entries.len() > 0,
    ensures
        lookup(entries.drop_last(), key) == if key == entries.last().0 {
            None
        } else {
            lookup(entries, key)
        },
{
    let shorter = entries.drop_last();
    let n = entries.len() - 1;
    if key == entries.last().0 {
        if has_key(shorter, key) {
            let p = position(shorter, key);
            assert(shorter[p] == entries[p]);
            assert(entries[p].0 != entries[n].0);
        }
    } else {
        if has_key(entries, key) {
            let p = position(entries, key);
            assert(p != n);
            assert(shorter[p] == entries[p]);
            assert(has_key(shorter, key));
            let q = position(shorter, key);
            assert(shorter[q] == entries[q]);
            if q < p {
                assert(entries[q].0 != entries[p].0);
            } else if p < q {
                assert(entries[p].0 != entries[q].0);
            }
        } else if has_key(shorter, key) {
            let q = position(shorter, key);
            assert(shorter[q] == entries[q]);
        }
    }
}

} // verus!
