//! Sets and records as ascending sequences: insertion, union and lookup.

use vstd::prelude::*;
use crate::order::{compare, order_of, Order};
use crate::value::{pair_views, views, Val, Value};

verus! {

/// `s` with `v` put in, looking for its place from position `i` downwards:
/// behind the last of the first `i` members that is less than `v`. Where a
/// member equal to `v` is met, `s` stays as it is.
pub open spec fn insert_from(s: Seq<Val>, v: Val, i: int) -> Seq<Val>
    decreases i,
{
    if i <= 0 || i > s.len() {
        s.insert(0, v)
    } else {
        match order_of(s[i - 1], v) {
            Order::Greater => insert_from(s, v, i - 1),
            Order::Equal => s,
            Order::Less => s.insert(i, v),
        }
    }
}

/// The set `s` with `v` as a member.
pub open spec fn set_insert(s: Seq<Val>, v: Val) -> Seq<Val> {
    insert_from(s, v, s.len() as int)
}

/// The set `s` with each of `items` put in, first to last.
pub open spec fn set_extend(s: Seq<Val>, items: Seq<Val>) -> Seq<Val>
    decreases items.len(),
{
    if items.len() == 0 {
        s
    } else {
        set_insert(set_extend(s, items.drop_last()), items.last())
    }
}

/// `s` with `k` bound to `v`, looking for the key's place from position `i`
/// downwards. An entry with a key equal to `k` keeps its key and takes `v`.
pub open spec fn put_from(s: Seq<(Val, Val)>, k: Val, v: Val, i: int) -> Seq<(Val, Val)>
    decreases i,
{
    if i <= 0 || i > s.len() {
        s.insert(0, (k, v))
    } else {
        match order_of(s[i - 1].0, k) {
            Order::Greater => put_from(s, k, v, i - 1),
            Order::Equal => s.update(i - 1, (s[i - 1].0, v)),
            Order::Less => s.insert(i, (k, v)),
        }
    }
}

/// The record `s` with `k` bound to `v`.
pub open spec fn record_put(s: Seq<(Val, Val)>, k: Val, v: Val) -> Seq<(Val, Val)> {
    put_from(s, k, v, s.len() as int)
}

/// The record `s` with each of `entries` put in, first to last, so that a
/// later entry wins over an earlier one with the same key.
pub open spec fn record_extend(s: Seq<(Val, Val)>, entries: Seq<(Val, Val)>) -> Seq<(Val, Val)>
    decreases entries.len(),
{
    if entries.len() == 0 {
        s
    } else {
        record_put(
            record_extend(s, entries.drop_last()),
            entries.last().0,
            entries.last().1,
        )
    }
}

/// The position of the last of the first `i` entries of `s` whose key equals
/// `k`, or -1.
pub open spec fn key_index(s: Seq<(Val, Val)>, k: Val, i: int) -> int
    decreases i,
{
    if i <= 0 || i > s.len() {
        -1
    } else if order_of(s[i - 1].0, k) == Order::Equal {
        i - 1
    } else {
        key_index(s, k, i - 1)
    }
}

/// What the record `s` binds `k` to.
pub open spec fn record_get(s: Seq<(Val, Val)>, k: Val) -> Option<Val> {
    let i = key_index(s, k, s.len() as int);
    if i < 0 {
        None
    } else {
        Some(s[i].1)
    }
}

/// Whether some item of `s` equals `v`.
pub open spec fn has_item(s: Seq<Val>, v: Val) -> bool {
    exists|i: int| 0 <= i < s.len() && order_of(#[trigger] s[i], v) == Order::Equal
}

/// Each member of `s` stands before the next one.
pub open spec fn ascending(s: Seq<Val>) -> bool {
    forall|i: int, j: int|
        0 <= i && j == i + 1 && j < s.len() ==> #[trigger] order_of(s[i], s[j]) == Order::Less
}

/// Each key of `s` stands before the next one.
pub open spec fn keys_ascending(s: Seq<(Val, Val)>) -> bool {
    forall|i: int, j: int|
        0 <= i && j == i + 1 && j < s.len() ==> #[trigger] order_of(s[i].0, s[j].0) == Order::Less
}

proof fn lemma_insert_from_ascending(s: Seq<Val>, v: Val, i: int)
    requires
        ascending(s),
        0 <= i <= s.len(),
        i < s.len() ==> order_of(s[i], v) == Order::Greater,
    ensures
        ascending(insert_from(s, v, i)),
    decreases i,
{
    if i < s.len() {
        crate::order::lemma_swap(s[i], v);
    }
    if i <= 0 {
        let r = s.insert(0, v);
        assert forall|a: int, b: int| 0 <= a && b == a + 1 && b < r.len() implies #[trigger] order_of(
            r[a],
            r[b],
        ) == Order::Less by {
            if a > 0 {
                assert(order_of(s[a - 1], s[b - 1]) == Order::Less);
            }
        }
    } else {
        match order_of(s[i - 1], v) {
            Order::Greater => {
                lemma_insert_from_ascending(s, v, i - 1);
            },
            Order::Equal => {},
            Order::Less => {
                let r = s.insert(i, v);
                assert forall|a: int, b: int|
                    0 <= a && b == a + 1 && b < r.len() implies #[trigger] order_of(r[a], r[b])
                    == Order::Less by {
                    if b < i {
                        assert(order_of(s[a], s[b]) == Order::Less);
                    } else if a > i {
                        assert(order_of(s[a - 1], s[b - 1]) == Order::Less);
                    }
                }
            },
        }
    }
}

/// Putting a value into an ascending set leaves it ascending.
pub proof fn lemma_set_insert_ascending(s: Seq<Val>, v: Val)
    requires
        ascending(s),
    ensures
        ascending(set_insert(s, v)),
{
    lemma_insert_from_ascending(s, v, s.len() as int);
}

/// Putting values into an ascending set leaves it ascending.
pub proof fn lemma_set_extend_ascending(s: Seq<Val>, items: Seq<Val>)
    requires
        ascending(s),
    ensures
        ascending(set_extend(s, items)),
    decreases items.len(),
{
    if items.len() > 0 {
        lemma_set_extend_ascending(s, items.drop_last());
        lemma_set_insert_ascending(set_extend(s, items.drop_last()), items.last());
    }
}

proof fn lemma_put_from_ascending(s: Seq<(Val, Val)>, k: Val, v: Val, i: int)
    requires
        keys_ascending(s),
        0 <= i <= s.len(),
        i < s.len() ==> order_of(s[i].0, k) == Order::Greater,
    ensures
        keys_ascending(put_from(s, k, v, i)),
    decreases i,
{
    if i < s.len() {
        crate::order::lemma_swap(s[i].0, k);
    }
    if i <= 0 {
        let r = s.insert(0, (k, v));
        assert forall|a: int, b: int| 0 <= a && b == a + 1 && b < r.len() implies #[trigger] order_of(
            r[a].0,
            r[b].0,
        ) == Order::Less by {
            if a > 0 {
                assert(order_of(s[a - 1].0, s[b - 1].0) == Order::Less);
            }
        }
    } else {
        match order_of(s[i - 1].0, k) {
            Order::Greater => {
                lemma_put_from_ascending(s, k, v, i - 1);
            },
            Order::Equal => {
                let r = s.update(i - 1, (s[i - 1].0, v));
                assert forall|a: int, b: int|
                    0 <= a && b == a + 1 && b < r.len() implies #[trigger] order_of(r[a].0, r[b].0)
                    == Order::Less by {
                    assert(order_of(s[a].0, s[b].0) == Order::Less);
                }
            },
            Order::Less => {
                let r = s.insert(i, (k, v));
                assert forall|a: int, b: int|
                    0 <= a && b == a + 1 && b < r.len() implies #[trigger] order_of(r[a].0, r[b].0)
                    == Order::Less by {
                    if b < i {
                        assert(order_of(s[a].0, s[b].0) == Order::Less);
                    } else if a > i {
                        assert(order_of(s[a - 1].0, s[b - 1].0) == Order::Less);
                    }
                }
            },
        }
    }
}

/// Binding a key in a record with ascending keys leaves the keys ascending.
pub proof fn lemma_record_put_ascending(s: Seq<(Val, Val)>, k: Val, v: Val)
    requires
        keys_ascending(s),
    ensures
        keys_ascending(record_put(s, k, v)),
{
    lemma_put_from_ascending(s, k, v, s.len() as int);
}

/// Putting entries into a record with ascending keys leaves the keys
/// ascending.
pub proof fn lemma_record_extend_ascending(s: Seq<(Val, Val)>, entries: Seq<(Val, Val)>)
    requires
        keys_ascending(s),
    ensures
        keys_ascending(record_extend(s, entries)),
    decreases entries.len(),
{
    if entries.len() > 0 {
        lemma_record_extend_ascending(s, entries.drop_last());
        lemma_record_put_ascending(
            record_extend(s, entries.drop_last()),
            entries.last().0,
            entries.last().1,
        );
    }
}

proof fn lemma_insert_members(s: Seq<Val>, v: Val, i: int)
    requires
        0 <= i <= s.len(),
    ensures
        forall|a: Val| #[trigger]
            s.insert(i, v).contains(a) <==> (s.contains(a) || a == v),
{
    let r = s.insert(i, v);
    assert forall|a: Val| #[trigger] r.contains(a) <==> (s.contains(a) || a == v) by {
        if r.contains(a) {
            let j = choose|j: int| 0 <= j < r.len() && r[j] == a;
            if j < i {
                assert(s[j] == a);
            } else if j > i {
                assert(s[j - 1] == a);
            }
        }
        if s.contains(a) {
            let j = choose|j: int| 0 <= j < s.len() && s[j] == a;
            if j < i {
                assert(r[j] == a);
            } else {
                assert(r[j + 1] == a);
            }
        }
        if a == v {
            assert(r[i] == a);
        }
    }
}

proof fn lemma_insert_from_members(s: Seq<Val>, v: Val, i: int)
    requires
        0 <= i <= s.len(),
    ensures
        forall|a: Val| #[trigger]
            insert_from(s, v, i).contains(a) <==> (s.contains(a) || a == v),
    decreases i,
{
    let r = insert_from(s, v, i);
    if i <= 0 {
        lemma_insert_members(s, v, 0);
        assert(r == s.insert(0, v));
    } else {
        match order_of(s[i - 1], v) {
            Order::Greater => {
                lemma_insert_from_members(s, v, i - 1);
                assert(r == insert_from(s, v, i - 1));
            },
            Order::Equal => {
                crate::order::lemma_equal_is_same(s[i - 1], v);
                assert(s[i - 1] == v);
                assert(s.contains(v));
                assert(r == s);
            },
            Order::Less => {
                lemma_insert_members(s, v, i);
                assert(r == s.insert(i, v));
            },
        }
    }
    assert forall|a: Val| #[trigger] r.contains(a) <==> (s.contains(a) || a == v) by {}
}

/// The members of a set after `v` was put in: those before, and `v`.
pub proof fn lemma_set_insert_members(s: Seq<Val>, v: Val)
    ensures
        forall|a: Val| #[trigger]
            set_insert(s, v).contains(a) <==> (s.contains(a) || a == v),
{
    lemma_insert_from_members(s, v, s.len() as int);
}

/// The members of a set after `items` were put in: those before, and the
/// items.
pub proof fn lemma_set_extend_members(s: Seq<Val>, items: Seq<Val>)
    ensures
        forall|a: Val| #[trigger]
            set_extend(s, items).contains(a) <==> (s.contains(a) || items.contains(a)),
    decreases items.len(),
{
    if items.len() > 0 {
        let front = items.drop_last();
        lemma_set_extend_members(s, front);
        lemma_set_insert_members(set_extend(s, front), items.last());
        assert forall|a: Val| #[trigger]
            set_extend(s, items).contains(a) <==> (s.contains(a) || items.contains(a)) by {
            if items.contains(a) {
                let j = choose|j: int| 0 <= j < items.len() && items[j] == a;
                if j < items.len() - 1 {
                    assert(front[j] == a);
                }
            }
            if front.contains(a) {
                let j = choose|j: int| 0 <= j < front.len() && front[j] == a;
                assert(items[j] == a);
            }
            if a == items.last() {
                assert(items[items.len() - 1] == a);
            }
        }
    } else {
        assert forall|a: Val| !items.contains(a) by {}
    }
}

/// An ascending set, built again member by member, is itself.
pub proof fn lemma_set_rebuilt(s: Seq<Val>)
    requires
        ascending(s),
    ensures
        set_extend(Seq::empty(), s) == s,
    decreases s.len(),
{
    if s.len() > 0 {
        let front = s.drop_last();
        assert(ascending(front)) by {
            assert forall|i: int, j: int|
                0 <= i && j == i + 1 && j < front.len() implies #[trigger] order_of(
                front[i],
                front[j],
            ) == Order::Less by {
                assert(order_of(s[i], s[j]) == Order::Less);
            }
        }
        lemma_set_rebuilt(front);
        if front.len() > 0 {
            assert(order_of(s[front.len() - 1], s[front.len() as int]) == Order::Less);
        }
        assert(set_insert(front, s.last()) =~= s);
    } else {
        assert(s =~= Seq::empty());
    }
}

/// A record with ascending keys, built again entry by entry, is itself.
pub proof fn lemma_record_rebuilt(s: Seq<(Val, Val)>)
    requires
        keys_ascending(s),
    ensures
        record_extend(Seq::empty(), s) == s,
    decreases s.len(),
{
    if s.len() > 0 {
        let front = s.drop_last();
        assert(keys_ascending(front)) by {
            assert forall|i: int, j: int|
                0 <= i && j == i + 1 && j < front.len() implies #[trigger] order_of(
                front[i].0,
                front[j].0,
            ) == Order::Less by {
                assert(order_of(s[i].0, s[j].0) == Order::Less);
            }
        }
        lemma_record_rebuilt(front);
        if front.len() > 0 {
            assert(order_of(s[front.len() - 1].0, s[front.len() as int].0) == Order::Less);
        }
        assert(record_put(front, s.last().0, s.last().1) =~= s);
    } else {
        assert(s =~= Seq::empty());
    }
}

/// Where a key is found, it is found among the first `i` entries, at an entry
/// with an equal key.
pub proof fn lemma_key_index_found(s: Seq<(Val, Val)>, k: Val, i: int)
    requires
        0 <= i <= s.len(),
    ensures
        -1 <= key_index(s, k, i) < i,
        key_index(s, k, i) >= 0 ==> order_of(s[key_index(s, k, i)].0, k) == Order::Equal,
    decreases i,
{
    if i > 0 && order_of(s[i - 1].0, k) != Order::Equal {
        lemma_key_index_found(s, k, i - 1);
    }
}

proof fn lemma_key_index_none(s: Seq<(Val, Val)>, k: Val, i: int)
    requires
        0 <= i <= s.len(),
        key_index(s, k, i) < 0,
    ensures
        forall|j: int| 0 <= j < i ==> order_of(#[trigger] s[j].0, k) != Order::Equal,
    decreases i,
{
    if i > 0 {
        lemma_key_index_none(s, k, i - 1);
    }
}

/// A record binds a key exactly where one of its keys equals it.
pub proof fn lemma_record_get_is_membership(s: Seq<(Val, Val)>, k: Val)
    ensures
        record_get(s, k) is Some <==> exists|i: int|
            0 <= i < s.len() && order_of(#[trigger] s[i].0, k) == Order::Equal,
{
    let n = s.len() as int;
    lemma_key_index_found(s, k, n);
    if key_index(s, k, n) < 0 {
        lemma_key_index_none(s, k, n);
    } else {
        let i = key_index(s, k, n);
        assert(order_of(s[i].0, k) == Order::Equal);
    }
}

proof fn lemma_key_index_prefix(s: Seq<(Val, Val)>, t: Seq<(Val, Val)>, k: Val, i: int)
    requires
        0 <= i <= s.len(),
        i <= t.len(),
        forall|j: int| 0 <= j < i ==> s[j].0 == t[j].0,
    ensures
        key_index(s, k, i) == key_index(t, k, i),
    decreases i,
{
    if i > 0 {
        lemma_key_index_prefix(s, t, k, i - 1);
    }
}

proof fn lemma_key_index_skip(s: Seq<(Val, Val)>, k: Val, lo: int, hi: int)
    requires
        0 <= lo <= hi <= s.len(),
        forall|j: int| lo <= j < hi ==> order_of(#[trigger] s[j].0, k) != Order::Equal,
    ensures
        key_index(s, k, hi) == key_index(s, k, lo),
    decreases hi - lo,
{
    if lo < hi {
        assert(order_of(s[hi - 1].0, k) != Order::Equal);
        lemma_key_index_skip(s, k, lo, hi - 1);
    }
}

proof fn lemma_key_index_insert(s: Seq<(Val, Val)>, p: int, e: (Val, Val), k: Val, i: int)
    requires
        0 <= p <= i <= s.len(),
        order_of(e.0, k) != Order::Equal,
    ensures
        key_index(s.insert(p, e), k, i + 1) == if key_index(s, k, i) >= p {
            key_index(s, k, i) + 1
        } else {
            key_index(s, k, i)
        },
    decreases i,
{
    let r = s.insert(p, e);
    lemma_key_index_found(s, k, i);
    if i == p {
        lemma_key_index_prefix(r, s, k, p);
        assert(r[p] == e);
    } else {
        assert(r[i] == s[i - 1]);
        if order_of(s[i - 1].0, k) != Order::Equal {
            lemma_key_index_insert(s, p, e, k, i - 1);
        }
    }
}

proof fn lemma_put_from_get(s: Seq<(Val, Val)>, k: Val, v: Val, i: int, q: Val)
    requires
        0 <= i <= s.len(),
        forall|j: int| i <= j < s.len() ==> order_of(#[trigger] s[j].0, k) == Order::Greater,
    ensures
        record_get(put_from(s, k, v, i), q) == if order_of(k, q) == Order::Equal {
            Some(v)
        } else {
            record_get(s, q)
        },
    decreases i,
{
    let n = s.len() as int;
    let same = order_of(k, q) == Order::Equal;
    if same {
        crate::order::lemma_equal_is_same(k, q);
    }
    lemma_key_index_found(s, q, n);
    if i > 0 && order_of(s[i - 1].0, k) == Order::Greater {
        lemma_put_from_get(s, k, v, i - 1, q);
    } else if i > 0 && order_of(s[i - 1].0, k) == Order::Equal {
        let r = s.update(i - 1, (s[i - 1].0, v));
        crate::order::lemma_equal_is_same(s[i - 1].0, k);
        if same {
            assert forall|j: int| i <= j < n implies order_of(#[trigger] r[j].0, q)
                != Order::Equal by {
                assert(r[j].0 == s[j].0);
            }
            lemma_key_index_skip(r, q, i, n);
        } else {
            lemma_key_index_prefix(r, s, q, n);
        }
    } else {
        let r = s.insert(i, (k, v));
        if same {
            assert forall|j: int| i + 1 <= j < n + 1 implies order_of(#[trigger] r[j].0, q)
                != Order::Equal by {
                assert(r[j] == s[j - 1]);
                assert(order_of(s[j - 1].0, k) == Order::Greater);
            }
            lemma_key_index_skip(r, q, i + 1, n + 1);
            assert(r[i] == (k, v));
        } else {
            lemma_key_index_insert(s, i, (k, v), q, n);
        }
    }
}

/// After `k` was bound to `v`, a key equal to `k` gives `v`, and any other key
/// what it gave before.
pub proof fn lemma_record_put_get(s: Seq<(Val, Val)>, k: Val, v: Val, q: Val)
    ensures
        record_get(record_put(s, k, v), q) == if order_of(k, q) == Order::Equal {
            Some(v)
        } else {
            record_get(s, q)
        },
{
    lemma_put_from_get(s, k, v, s.len() as int, q);
}

/// After `entries` were put into a record, a key gives what the last of the
/// entries with that key binds it to, and without such an entry what it gave
/// before.
pub proof fn lemma_record_extend_get(s: Seq<(Val, Val)>, entries: Seq<(Val, Val)>, q: Val)
    ensures
        record_get(record_extend(s, entries), q) == match record_get(entries, q) {
            Some(v) => Some(v),
            None => record_get(s, q),
        },
    decreases entries.len(),
{
    if entries.len() > 0 {
        let front = entries.drop_last();
        lemma_record_extend_get(s, front, q);
        lemma_record_put_get(record_extend(s, front), entries.last().0, entries.last().1, q);
        lemma_key_index_prefix(entries, front, q, front.len() as int);
        lemma_key_index_found(entries, q, front.len() as int);
    }
}

/// No builtin occurs in any of `s`.
pub open spec fn all_plain(s: Seq<Val>) -> bool {
    forall|i: int| 0 <= i < s.len() ==> crate::order::plain(#[trigger] s[i])
}

/// In an ascending set each member stands before all later ones.
pub proof fn lemma_ascending_throughout(s: Seq<Val>, i: int, j: int)
    requires
        ascending(s),
        0 <= i < j < s.len(),
    ensures
        order_of(s[i], s[j]) == Order::Less,
    decreases j - i,
{
    if j > i + 1 {
        lemma_ascending_throughout(s, i, j - 1);
        assert(order_of(s[j - 1], s[j]) == Order::Less);
        crate::order::lemma_transitive(s[i], s[j - 1], s[j]);
    } else {
        assert(order_of(s[i], s[j]) == Order::Less);
    }
}

proof fn lemma_ascending_front(s: Seq<Val>)
    requires
        ascending(s),
        s.len() > 0,
    ensures
        ascending(s.drop_last()),
{
    let front = s.drop_last();
    assert forall|i: int, j: int| 0 <= i && j == i + 1 && j < front.len() implies #[trigger] order_of(
        front[i],
        front[j],
    ) == Order::Less by {
        assert(order_of(s[i], s[j]) == Order::Less);
    }
}

proof fn lemma_last_is_greatest(s: Seq<Val>, t: Seq<Val>)
    requires
        ascending(s),
        ascending(t),
        all_plain(s),
        s.len() > 0,
        t.len() > 0,
        t.contains(s.last()),
        s.contains(t.last()),
    ensures
        s.last() == t.last(),
{
    let a = s.last();
    let b = t.last();
    let j = choose|j: int| 0 <= j < t.len() && t[j] == a;
    let i = choose|i: int| 0 <= i < s.len() && s[i] == b;
    assert(crate::order::plain(s[s.len() - 1]));
    crate::order::lemma_reflexive(a);
    if j < t.len() - 1 {
        lemma_ascending_throughout(t, j, t.len() - 1);
        if i < s.len() - 1 {
            lemma_ascending_throughout(s, i, s.len() - 1);
            crate::order::lemma_transitive(a, b, a);
        }
    }
}

/// Two ascending sets without builtins that have the same members are the
/// same sequence.
pub proof fn lemma_ascending_unique(s: Seq<Val>, t: Seq<Val>)
    requires
        ascending(s),
        ascending(t),
        all_plain(s),
        all_plain(t),
        forall|a: Val| s.contains(a) <==> t.contains(a),
    ensures
        s == t,
    decreases s.len(),
{
    if s.len() == 0 {
        if t.len() > 0 {
            assert(t.contains(t[0]));
        }
        assert(s =~= t);
    } else {
        assert(s.contains(s[s.len() - 1]));
        assert(t.len() > 0);
        assert(t.contains(t[t.len() - 1]));
        lemma_last_is_greatest(s, t);
        let sf = s.drop_last();
        let tf = t.drop_last();
        lemma_ascending_front(s);
        lemma_ascending_front(t);
        assert forall|a: Val| sf.contains(a) <==> tf.contains(a) by {
            if sf.contains(a) {
                let k = choose|k: int| 0 <= k < sf.len() && sf[k] == a;
                assert(s[k] == a);
                assert(s.contains(a));
                let m = choose|m: int| 0 <= m < t.len() && t[m] == a;
                if m == t.len() - 1 {
                    lemma_ascending_throughout(s, k, s.len() - 1);
                    assert(crate::order::plain(s[k]));
                    crate::order::lemma_reflexive(a);
                }
                assert(tf[m] == a);
            }
            if tf.contains(a) {
                let k = choose|k: int| 0 <= k < tf.len() && tf[k] == a;
                assert(t[k] == a);
                assert(t.contains(a));
                let m = choose|m: int| 0 <= m < s.len() && s[m] == a;
                if m == s.len() - 1 {
                    lemma_ascending_throughout(t, k, t.len() - 1);
                    assert(crate::order::plain(t[k]));
                    crate::order::lemma_reflexive(a);
                }
                assert(sf[m] == a);
            }
        }
        assert(all_plain(sf)) by {
            assert forall|i: int| 0 <= i < sf.len() implies crate::order::plain(#[trigger] sf[i]) by {
                assert(crate::order::plain(s[i]));
            }
        }
        assert(all_plain(tf)) by {
            assert forall|i: int| 0 <= i < tf.len() implies crate::order::plain(#[trigger] tf[i]) by {
                assert(crate::order::plain(t[i]));
            }
        }
        lemma_ascending_unique(sf, tf);
        assert(s =~= sf.push(s.last()));
        assert(t =~= tf.push(t.last()));
    }
}

/// The union of two ascending sets without builtins is the same sequence
/// whichever of the two stands left.
pub proof fn lemma_set_extend_commutes(s: Seq<Val>, t: Seq<Val>)
    requires
        ascending(s),
        ascending(t),
        all_plain(s),
        all_plain(t),
    ensures
        set_extend(s, t) == set_extend(t, s),
{
    let u = set_extend(s, t);
    let w = set_extend(t, s);
    lemma_set_extend_ascending(s, t);
    lemma_set_extend_ascending(t, s);
    lemma_set_extend_members(s, t);
    lemma_set_extend_members(t, s);
    assert forall|i: int| 0 <= i < u.len() implies crate::order::plain(#[trigger] u[i]) by {
        let a = u[i];
        assert(u.contains(a));
        if s.contains(a) {
            let j = choose|j: int| 0 <= j < s.len() && s[j] == a;
            assert(crate::order::plain(s[j]));
        } else {
            let j = choose|j: int| 0 <= j < t.len() && t[j] == a;
            assert(crate::order::plain(t[j]));
        }
    }
    assert forall|i: int| 0 <= i < w.len() implies crate::order::plain(#[trigger] w[i]) by {
        let a = w[i];
        assert(w.contains(a));
        if s.contains(a) {
            let j = choose|j: int| 0 <= j < s.len() && s[j] == a;
            assert(crate::order::plain(s[j]));
        } else {
            let j = choose|j: int| 0 <= j < t.len() && t[j] == a;
            assert(crate::order::plain(t[j]));
        }
    }
    lemma_ascending_unique(u, w);
}

/// Puts `v` into the set `xs`.
pub fn insert_value(xs: &mut Vec<Value>, v: Value)
    ensures
        views(final(xs)@) == set_insert(views(old(xs)@), v@),
        ascending(views(old(xs)@)) ==> ascending(views(final(xs)@)),
{
    proof {
        if ascending(views(xs@)) {
            lemma_set_insert_ascending(views(xs@), v@);
        }
    }
    let mut i: usize = xs.len();
    while i > 0
        invariant
            i <= xs.len(),
            *xs == *old(xs),
            set_insert(views(xs@), v@) == insert_from(views(xs@), v@, i as int),
            ascending(views(xs@)) ==> ascending(set_insert(views(xs@), v@)),
        decreases i,
    {
        match compare(&xs[i - 1], &v) {
            Order::Greater => {
                i -= 1;
            },
            Order::Equal => {
                return ;
            },
            Order::Less => {
                xs.insert(i, v);
                assert(views(xs@) =~= views(old(xs)@).insert(i as int, v@));
                return ;
            },
        }
    }
    xs.insert(0, v);
    assert(views(xs@) =~= views(old(xs)@).insert(0, v@));
}

/// Puts each of `items` into the set `xs`, first to last.
pub fn extend_set(xs: &mut Vec<Value>, items: &Vec<Value>)
    ensures
        views(final(xs)@) == set_extend(views(old(xs)@), views(items@)),
        ascending(views(old(xs)@)) ==> ascending(views(final(xs)@)),
{
    proof {
        if ascending(views(xs@)) {
            lemma_set_extend_ascending(views(xs@), views(items@));
        }
    }
    let mut i: usize = 0;
    while i < items.len()
        invariant
            i <= items.len(),
            views(xs@) == set_extend(views(old(xs)@), views(items@).take(i as int)),
        decreases items.len() - i,
    {
        let v = items[i].duplicate();
        insert_value(xs, v);
        proof {
            let t = views(items@).take(i + 1);
            assert(t.drop_last() =~= views(items@).take(i as int));
        }
        i += 1;
    }
    assert(views(items@).take(i as int) =~= views(items@));
}

/// Binds `k` to `v` in the record `xs`.
pub fn put_entry(xs: &mut Vec<(Value, Value)>, k: Value, v: Value)
    ensures
        pair_views(final(xs)@) == record_put(pair_views(old(xs)@), k@, v@),
        keys_ascending(pair_views(old(xs)@)) ==> keys_ascending(pair_views(final(xs)@)),
{
    proof {
        if keys_ascending(pair_views(xs@)) {
            lemma_record_put_ascending(pair_views(xs@), k@, v@);
        }
    }
    let mut i: usize = xs.len();
    while i > 0
        invariant
            i <= xs.len(),
            *xs == *old(xs),
            record_put(pair_views(xs@), k@, v@) == put_from(pair_views(xs@), k@, v@, i as int),
            keys_ascending(pair_views(xs@)) ==> keys_ascending(record_put(pair_views(xs@), k@, v@)),
        decreases i,
    {
        match compare(&xs[i - 1].0, &k) {
            Order::Greater => {
                i -= 1;
            },
            Order::Equal => {
                let entry = xs.remove(i - 1);
                xs.insert(i - 1, (entry.0, v));
                assert(pair_views(xs@) =~= pair_views(old(xs)@).update(
                    i - 1,
                    (pair_views(old(xs)@)[i - 1].0, v@),
                ));
                return ;
            },
            Order::Less => {
                xs.insert(i, (k, v));
                assert(pair_views(xs@) =~= pair_views(old(xs)@).insert(i as int, (k@, v@)));
                return ;
            },
        }
    }
    xs.insert(0, (k, v));
    assert(pair_views(xs@) =~= pair_views(old(xs)@).insert(0, (k@, v@)));
}

/// Puts each of `entries` into the record `xs`, first to last.
pub fn extend_record(xs: &mut Vec<(Value, Value)>, entries: &Vec<(Value, Value)>)
    ensures
        pair_views(final(xs)@) == record_extend(pair_views(old(xs)@), pair_views(entries@)),
        keys_ascending(pair_views(old(xs)@)) ==> keys_ascending(pair_views(final(xs)@)),
{
    proof {
        if keys_ascending(pair_views(xs@)) {
            lemma_record_extend_ascending(pair_views(xs@), pair_views(entries@));
        }
    }
    let mut i: usize = 0;
    while i < entries.len()
        invariant
            i <= entries.len(),
            pair_views(xs@) == record_extend(
                pair_views(old(xs)@),
                pair_views(entries@).take(i as int),
            ),
        decreases entries.len() - i,
    {
        let k = entries[i].0.duplicate();
        let v = entries[i].1.duplicate();
        put_entry(xs, k, v);
        proof {
            let t = pair_views(entries@).take(i + 1);
            assert(t.drop_last() =~= pair_views(entries@).take(i as int));
        }
        i += 1;
    }
    assert(pair_views(entries@).take(i as int) =~= pair_views(entries@));
}

/// Looks `k` up in the record `xs`.
pub fn get_entry<'a>(xs: &'a Vec<(Value, Value)>, k: &Value) -> (r: Option<&'a Value>)
    ensures
        match r {
            Some(v) => record_get(pair_views(xs@), k@) == Some(v@),
            None => record_get(pair_views(xs@), k@) is None,
        },
{
    let mut i: usize = xs.len();
    while i > 0
        invariant
            i <= xs.len(),
            key_index(pair_views(xs@), k@, xs.len() as int) == key_index(
                pair_views(xs@),
                k@,
                i as int,
            ),
        decreases i,
    {
        match compare(&xs[i - 1].0, k) {
            Order::Equal => {
                return Some(&xs[i - 1].1);
            },
            _ => {
                i -= 1;
            },
        }
    }
    None
}

/// Whether some item of `xs` equals `v`.
pub fn contains_item(xs: &Vec<Value>, v: &Value) -> (r: bool)
    ensures
        r == has_item(views(xs@), v@),
{
    let mut i: usize = 0;
    while i < xs.len()
        invariant
            i <= xs.len(),
            forall|j: int| 0 <= j < i ==> order_of(#[trigger] views(xs@)[j], v@) != Order::Equal,
        decreases xs.len() - i,
    {
        match compare(&xs[i], v) {
            Order::Equal => {
                assert(order_of(views(xs@)[i as int], v@) == Order::Equal);
                return true;
            },
            _ => {},
        }
        i += 1;
    }
    false
}

} // verus!
