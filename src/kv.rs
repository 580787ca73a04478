//! The key-value store behind the `db` namespace. Items are addressed by the
//! pair (table, key) itself, so no two different pairs can meet on one stored
//! key. Items are kept sorted by table, then key, in code-point order, so a
//! prefix query answers in ascending key order. They are held in a sorted
//! `Vec` rather than a `BTreeMap`: with `String` keys the verifier cannot
//! follow what a `BTreeMap` holds, while the order of a `Vec` it can.
use vstd::prelude::*;
use crate::text::{
    is_prefix, lemma_text_lt_irrefl, lemma_text_lt_total, lemma_text_lt_trans, same_text, starts_with,
    text_less, text_lt,
};
use crate::codec::{opt_bytes_view, pairs_view};

verus! {

/// One stored item as contracts see it: table, key and value.
pub type EntryView = (Seq<char>, Seq<char>, Seq<u8>);

/// One stored item.
pub struct KvEntry {
    pub table: String,
    pub key: String,
    pub value: Vec<u8>,
}

impl View for KvEntry {
    type V = EntryView;

    open spec fn view(&self) -> EntryView {
        (self.table@, self.key@, self.value@)
    }
}

pub open spec fn has_key(e: EntryView, t: Seq<char>, k: Seq<char>) -> bool {
    e.0 == t && e.1 == k
}

/// No two items share a (table, key) pair.
pub open spec fn keys_unique(s: Seq<EntryView>) -> bool {
    forall|i: int, j: int|
        0 <= i < s.len() && 0 <= j < s.len() && i != j ==> !has_key(s[i], s[j].0, s[j].1)
}

/// The (table, key) pair of an item.
pub open spec fn ek(e: EntryView) -> (Seq<char>, Seq<char>) {
    (e.0, e.1)
}

/// Order of (table, key) pairs: by table, then by key.
pub open spec fn key_lt(a: (Seq<char>, Seq<char>), b: (Seq<char>, Seq<char>)) -> bool {
    text_lt(a.0, b.0) || (a.0 == b.0 && text_lt(a.1, b.1))
}

/// The items stand in strictly ascending (table, key) order.
pub open spec fn sorted_keys(s: Seq<EntryView>) -> bool {
    forall|i: int, j: int| 0 <= i < j < s.len() ==> key_lt(ek(s[i]), ek(s[j]))
}

/// A valid store: sorted, and so no key twice.
pub open spec fn store_wf(s: Seq<EntryView>) -> bool {
    keys_unique(s) && sorted_keys(s)
}

/// The keys of a prefix answer come in strictly ascending order.
pub open spec fn keys_ascending(r: Seq<(Seq<char>, Seq<u8>)>) -> bool {
    forall|i: int, j: int| 0 <= i < j < r.len() ==> text_lt(r[i].0, r[j].0)
}

/// Where a new item of (t, k) goes: after the items that come before it.
pub open spec fn insert_pos(s: Seq<EntryView>, t: Seq<char>, k: Seq<char>) -> int
    decreases s.len(),
{
    if s.len() == 0 {
        0
    } else if key_lt(ek(s.last()), (t, k)) {
        s.len() as int
    } else {
        insert_pos(s.drop_last(), t, k)
    }
}

/// Where the item of (t, k) stands, if there is one.
pub open spec fn index_of(s: Seq<EntryView>, t: Seq<char>, k: Seq<char>) -> Option<int>
    decreases s.len(),
{
    if s.len() == 0 {
        None
    } else if has_key(s.last(), t, k) {
        Some(s.len() - 1)
    } else {
        index_of(s.drop_last(), t, k)
    }
}

/// The value stored under (t, k).
pub open spec fn lookup(s: Seq<EntryView>, t: Seq<char>, k: Seq<char>) -> Option<Seq<u8>> {
    match index_of(s, t, k) {
        Some(i) => Some(s[i].2),
        None => None,
    }
}

/// The store after `set(t, k, v)`: the value is replaced in place, or a new
/// item goes where its key belongs.
pub open spec fn store_set(s: Seq<EntryView>, t: Seq<char>, k: Seq<char>, v: Seq<u8>) -> Seq<
    EntryView,
> {
    match index_of(s, t, k) {
        Some(i) => s.update(i, (t, k, v)),
        None => s.insert(insert_pos(s, t, k), (t, k, v)),
    }
}

/// The store after `del(t, k)`.
pub open spec fn store_del(s: Seq<EntryView>, t: Seq<char>, k: Seq<char>) -> Seq<EntryView> {
    match index_of(s, t, k) {
        Some(i) => s.remove(i),
        None => s,
    }
}

/// The store after `set_many(t, items)`: each item set in turn.
pub open spec fn store_set_many(
    s: Seq<EntryView>,
    t: Seq<char>,
    items: Seq<(Seq<char>, Seq<u8>)>,
) -> Seq<EntryView>
    decreases items.len(),
{
    if items.len() == 0 {
        s
    } else {
        store_set(store_set_many(s, t, items.drop_last()), t, items.last().0, items.last().1)
    }
}

/// The item lies in table `t` and its key starts with `p`.
pub open spec fn in_range(e: EntryView, t: Seq<char>, p: Seq<char>) -> bool {
    e.0 == t && is_prefix(p, e.1)
}

/// The (key, value) pairs of table `t` whose key starts with `p`, in store
/// order, which on a valid store is ascending key order.
pub open spec fn prefix_entries(s: Seq<EntryView>, t: Seq<char>, p: Seq<char>) -> Seq<
    (Seq<char>, Seq<u8>),
>
    decreases s.len(),
{
    if s.len() == 0 {
        seq![]
    } else {
        let r = prefix_entries(s.drop_last(), t, p);
        if in_range(s.last(), t, p) {
            r.push((s.last().1, s.last().2))
        } else {
            r
        }
    }
}

/// The store after `del_prefix(t, p)`: the items out of that range, in order.
pub open spec fn outside_prefix(s: Seq<EntryView>, t: Seq<char>, p: Seq<char>) -> Seq<EntryView>
    decreases s.len(),
{
    if s.len() == 0 {
        seq![]
    } else {
        let r = outside_prefix(s.drop_last(), t, p);
        if in_range(s.last(), t, p) {
            r
        } else {
            r.push(s.last())
        }
    }
}

pub proof fn lemma_index_of(s: Seq<EntryView>, t: Seq<char>, k: Seq<char>)
    ensures
        match index_of(s, t, k) {
            Some(i) => 0 <= i < s.len() && has_key(s[i], t, k),
            None => forall|j: int| 0 <= j < s.len() ==> !has_key(s[j], t, k),
        },
    decreases s.len(),
{
    if s.len() > 0 {
        lemma_index_of(s.drop_last(), t, k);
        if !has_key(s.last(), t, k) {
            assert forall|j: int| 0 <= j < s.len() - 1 implies s[j] == s.drop_last()[j] by {}
        }
    }
}

pub proof fn lemma_index_of_at(s: Seq<EntryView>, t: Seq<char>, k: Seq<char>, i: int)
    requires
        keys_unique(s),
        0 <= i < s.len(),
        has_key(s[i], t, k),
    ensures
        index_of(s, t, k) == Some(i),
{
    lemma_index_of(s, t, k);
}

pub proof fn lemma_key_lt_total(a: (Seq<char>, Seq<char>), b: (Seq<char>, Seq<char>))
    ensures
        a != b ==> key_lt(a, b) || key_lt(b, a),
        !(key_lt(a, b) && key_lt(b, a)),
{
    lemma_text_lt_total(a.0, b.0);
    lemma_text_lt_total(a.1, b.1);
    lemma_text_lt_irrefl(a.0);
}

pub proof fn lemma_key_lt_trans(
    a: (Seq<char>, Seq<char>),
    b: (Seq<char>, Seq<char>),
    c: (Seq<char>, Seq<char>),
)
    requires
        key_lt(a, b),
        key_lt(b, c),
    ensures
        key_lt(a, c),
{
    if text_lt(a.0, b.0) && text_lt(b.0, c.0) {
        lemma_text_lt_trans(a.0, b.0, c.0);
    }
    if a.0 == b.0 && b.0 == c.0 && text_lt(a.1, b.1) && text_lt(b.1, c.1) {
        lemma_text_lt_trans(a.1, b.1, c.1);
    }
}

pub proof fn lemma_sorted_unique(s: Seq<EntryView>)
    requires
        sorted_keys(s),
    ensures
        keys_unique(s),
{
    assert forall|i: int, j: int|
        0 <= i < s.len() && 0 <= j < s.len() && i != j implies !has_key(s[i], s[j].0, s[j].1) by {
        lemma_text_lt_irrefl(s[i].0);
        lemma_text_lt_irrefl(s[i].1);
        if i < j {
            assert(key_lt(ek(s[i]), ek(s[j])));
        } else {
            assert(key_lt(ek(s[j]), ek(s[i])));
        }
    }
}

pub proof fn lemma_insert_pos(s: Seq<EntryView>, t: Seq<char>, k: Seq<char>)
    requires
        sorted_keys(s),
        index_of(s, t, k) is None,
    ensures
        0 <= insert_pos(s, t, k) <= s.len(),
        forall|i: int| 0 <= i < insert_pos(s, t, k) ==> key_lt(ek(#[trigger] s[i]), (t, k)),
        forall|i: int| insert_pos(s, t, k) <= i < s.len() ==> key_lt((t, k), ek(#[trigger] s[i])),
    decreases s.len(),
{
    if s.len() > 0 {
        let d = s.drop_last();
        let n = s.len() - 1;
        lemma_index_of(s, t, k);
        assert(s.last() == s[n]);
        lemma_key_lt_total(ek(s[n]), (t, k));
        if key_lt(ek(s[n]), (t, k)) {
            assert forall|i: int| 0 <= i < s.len() implies key_lt(ek(#[trigger] s[i]), (t, k)) by {
                if i < n {
                    lemma_key_lt_trans(ek(s[i]), ek(s[n]), (t, k));
                }
            }
        } else {
            assert forall|i: int, j: int| 0 <= i < j < d.len() implies key_lt(ek(d[i]), ek(d[j])) by {
                assert(d[i] == s[i] && d[j] == s[j]);
            }
            lemma_insert_pos(d, t, k);
            assert forall|i: int| 0 <= i < insert_pos(s, t, k) implies key_lt(ek(#[trigger] s[i]), (t, k)) by {
                assert(d[i] == s[i]);
            }
            assert forall|i: int| insert_pos(s, t, k) <= i < s.len() implies key_lt((t, k), ek(#[trigger] s[i])) by {
                if i < n {
                    assert(d[i] == s[i]);
                }
            }
        }
    }
}

pub proof fn lemma_set_unique(s: Seq<EntryView>, t: Seq<char>, k: Seq<char>, v: Seq<u8>)
    requires
        store_wf(s),
    ensures
        store_wf(store_set(s, t, k, v)),
{
    lemma_index_of(s, t, k);
    let r = store_set(s, t, k, v);
    if let Some(i) = index_of(s, t, k) {
        assert forall|a: int, b: int| 0 <= a < b < r.len() implies key_lt(ek(r[a]), ek(r[b])) by {
            assert(ek(r[a]) == ek(s[a]) && ek(r[b]) == ek(s[b]));
        }
    } else {
        let q = insert_pos(s, t, k);
        lemma_insert_pos(s, t, k);
        let x = (t, k, v);
        assert forall|a: int, b: int| 0 <= a < b < r.len() implies key_lt(ek(r[a]), ek(r[b])) by {
            if b < q {
                assert(r[a] == s[a] && r[b] == s[b]);
            } else if b == q {
                assert(r[a] == s[a] && r[b] == x);
            } else if a < q {
                assert(r[a] == s[a] && r[b] == s[b - 1]);
            } else if a == q {
                assert(r[a] == x && r[b] == s[b - 1]);
            } else {
                assert(r[a] == s[a - 1] && r[b] == s[b - 1]);
            }
        }
    }
    lemma_sorted_unique(r);
}

pub proof fn lemma_del_unique(s: Seq<EntryView>, t: Seq<char>, k: Seq<char>)
    requires
        store_wf(s),
    ensures
        store_wf(store_del(s, t, k)),
{
    lemma_index_of(s, t, k);
    if let Some(i) = index_of(s, t, k) {
        let r = s.remove(i);
        assert forall|a: int, b: int| 0 <= a < b < r.len() implies key_lt(ek(r[a]), ek(r[b])) by {
            let a2 = if a < i { a } else { a + 1 };
            let b2 = if b < i { b } else { b + 1 };
            assert(r[a] == s[a2]);
            assert(r[b] == s[b2]);
        }
        assert forall|a: int, b: int|
            0 <= a < r.len() && 0 <= b < r.len() && a != b implies !has_key(r[a], r[b].0, r[b].1) by {
            let a2 = if a < i { a } else { a + 1 };
            let b2 = if b < i { b } else { b + 1 };
            assert(r[a] == s[a2]);
            assert(r[b] == s[b2]);
        }
    }
}

pub proof fn lemma_outside_from(s: Seq<EntryView>, t: Seq<char>, p: Seq<char>)
    ensures
        forall|x: int|
            0 <= x < outside_prefix(s, t, p).len() ==> exists|j: int|
                0 <= j < s.len() && s[j] == #[trigger] outside_prefix(s, t, p)[x],
        keys_unique(s) ==> keys_unique(outside_prefix(s, t, p)),
        sorted_keys(s) ==> sorted_keys(outside_prefix(s, t, p)),
    decreases s.len(),
{
    if s.len() > 0 {
        let d = s.drop_last();
        if sorted_keys(s) {
            assert forall|i: int, j: int| 0 <= i < j < d.len() implies key_lt(ek(d[i]), ek(d[j])) by {
                assert(d[i] == s[i] && d[j] == s[j]);
            }
        }
        lemma_outside_from(d, t, p);
        let r = outside_prefix(d, t, p);
        assert forall|x: int| 0 <= x < r.len() implies exists|j: int|
            0 <= j < s.len() && s[j] == #[trigger] r[x] by {
            let j = choose|j: int| 0 <= j < d.len() && d[j] == r[x];
            assert(s[j] == r[x]);
        }
        if !in_range(s.last(), t, p) {
            let r2 = r.push(s.last());
            assert forall|x: int| 0 <= x < r2.len() implies exists|j: int|
                0 <= j < s.len() && s[j] == #[trigger] r2[x] by {
                if x < r.len() {
                    assert(r2[x] == r[x]);
                } else {
                    assert(s[s.len() - 1] == r2[x]);
                }
            }
            if sorted_keys(s) {
                assert forall|a: int, b: int| 0 <= a < b < r2.len() implies key_lt(ek(r2[a]), ek(r2[b])) by {
                    if b < r.len() {
                        assert(r2[a] == r[a] && r2[b] == r[b]);
                    } else {
                        assert(r2[a] == r[a] && r2[b] == s[s.len() - 1]);
                        let j = choose|j: int| 0 <= j < d.len() && d[j] == r[a];
                        assert(d[j] == s[j]);
                    }
                }
            }
            if keys_unique(s) {
                assert(keys_unique(d)) by {
                    assert forall|a: int, b: int|
                        0 <= a < d.len() && 0 <= b < d.len() && a != b implies !has_key(
                        d[a],
                        d[b].0,
                        d[b].1,
                    ) by {
                        assert(d[a] == s[a] && d[b] == s[b]);
                    }
                }
                assert forall|a: int, b: int|
                    0 <= a < r2.len() && 0 <= b < r2.len() && a != b implies !has_key(
                    r2[a],
                    r2[b].0,
                    r2[b].1,
                ) by {
                    if a < r.len() && b < r.len() {
                        assert(r2[a] == r[a] && r2[b] == r[b]);
                    } else if a < r.len() {
                        assert(r2[a] == r[a]);
                        let j = choose|j: int| 0 <= j < d.len() && d[j] == r[a];
                        assert(d[j] == s[j]);
                    } else {
                        assert(r2[b] == r[b]);
                        let j = choose|j: int| 0 <= j < d.len() && d[j] == r[b];
                        assert(d[j] == s[j]);
                    }
                }
            }
        } else if keys_unique(s) {
            assert forall|a: int, b: int|
                0 <= a < d.len() && 0 <= b < d.len() && a != b implies !has_key(
                d[a],
                d[b].0,
                d[b].1,
            ) by {
                assert(d[a] == s[a] && d[b] == s[b]);
            }
        }
    }
}

pub proof fn lemma_set_other(
    s: Seq<EntryView>,
    t: Seq<char>,
    k: Seq<char>,
    v: Seq<u8>,
    k2: Seq<char>,
)
    requires
        store_wf(s),
        k2 != k,
    ensures
        lookup(store_set(s, t, k, v), t, k2) == lookup(s, t, k2),
{
    let r = store_set(s, t, k, v);
    lemma_set_unique(s, t, k, v);
    lemma_index_of(s, t, k);
    lemma_index_of(s, t, k2);
    lemma_index_of(r, t, k2);
    if let Some(i) = index_of(s, t, k2) {
        if index_of(s, t, k) is Some {
            assert(r[i] == s[i]);
            lemma_index_of_at(r, t, k2, i);
        } else {
            let q = insert_pos(s, t, k);
            lemma_insert_pos(s, t, k);
            if i < q {
                assert(r[i] == s[i]);
                lemma_index_of_at(r, t, k2, i);
            } else {
                assert(r[i + 1] == s[i]);
                lemma_index_of_at(r, t, k2, i + 1);
            }
        }
    } else {
        if let Some(j) = index_of(r, t, k2) {
            let q = insert_pos(s, t, k);
            lemma_insert_pos(s, t, k);
            if j < q {
                assert(r[j] == s[j]);
            } else if j > q {
                assert(r[j] == s[j - 1]);
            }
        }
    }
}

pub proof fn lemma_prefix_entries_has(s: Seq<EntryView>, t: Seq<char>, p: Seq<char>, i: int)
    requires
        0 <= i < s.len(),
        in_range(s[i], t, p),
    ensures
        prefix_entries(s, t, p).contains((s[i].1, s[i].2)),
    decreases s.len(),
{
    let d = s.drop_last();
    let r = prefix_entries(d, t, p);
    if i == s.len() - 1 {
        assert(r.push((s[i].1, s[i].2))[r.len() as int] == (s[i].1, s[i].2));
    } else {
        assert(d[i] == s[i]);
        lemma_prefix_entries_has(d, t, p, i);
        let x = choose|x: int| 0 <= x < r.len() && r[x] == (s[i].1, s[i].2);
        if in_range(s.last(), t, p) {
            assert(r.push((s.last().1, s.last().2))[x] == r[x]);
        }
    }
}

/// A prefix query on a sorted store answers in strictly ascending key order,
/// and no key in the answer comes after the store's last item.
pub proof fn lemma_prefix_sorted(s: Seq<EntryView>, t: Seq<char>, p: Seq<char>)
    requires
        sorted_keys(s),
    ensures
        keys_ascending(prefix_entries(s, t, p)),
        s.len() > 0 ==> forall|x: int|
            0 <= x < prefix_entries(s, t, p).len() ==> ((t, #[trigger] prefix_entries(s, t, p)[x].0)
                == ek(s.last()) || key_lt((t, prefix_entries(s, t, p)[x].0), ek(s.last()))),
    decreases s.len(),
{
    if s.len() > 0 {
        let d = s.drop_last();
        let n = s.len() - 1;
        assert(s.last() == s[n]);
        assert forall|i: int, j: int| 0 <= i < j < d.len() implies key_lt(ek(d[i]), ek(d[j])) by {
            assert(d[i] == s[i] && d[j] == s[j]);
        }
        lemma_prefix_sorted(d, t, p);
        let r = prefix_entries(d, t, p);
        let last = ek(s[n]);
        assert forall|x: int| 0 <= x < r.len() implies key_lt((t, #[trigger] r[x].0), last) by {
            assert(d.last() == s[n - 1]);
            assert(key_lt(ek(s[n - 1]), last));
            if (t, r[x].0) != ek(d.last()) {
                lemma_key_lt_trans((t, r[x].0), ek(d.last()), last);
            }
        }
        let res = prefix_entries(s, t, p);
        if !in_range(s[n], t, p) {
            assert(res == r);
        } else {
            let r2 = r.push((s[n].1, s[n].2));
            assert(res == r2);
            assert forall|x: int| 0 <= x < r2.len() implies ((t, #[trigger] r2[x].0) == last
                || key_lt((t, r2[x].0), last)) by {
                if x < r.len() {
                    assert(r2[x] == r[x]);
                }
            }
            assert forall|a: int, b: int| 0 <= a < b < r2.len() implies text_lt(r2[a].0, r2[b].0) by {
                assert(r2[a] == r[a]);
                if b < r.len() {
                    assert(r2[b] == r[b]);
                } else {
                    assert(key_lt((t, r[a].0), last));
                    lemma_text_lt_irrefl(t);
                }
            }
        }
    }
}

/// A `get` right after a `set` of the same table and key returns the value
/// that was set.
pub proof fn law_set_then_get(s: Seq<EntryView>, t: Seq<char>, k: Seq<char>, v: Seq<u8>)
    requires
        store_wf(s),
    ensures
        lookup(store_set(s, t, k, v), t, k) == Some(v),
{
    lemma_set_unique(s, t, k, v);
    lemma_index_of(s, t, k);
    let r = store_set(s, t, k, v);
    if let Some(i) = index_of(s, t, k) {
        lemma_index_of_at(r, t, k, i);
    } else {
        lemma_insert_pos(s, t, k);
        lemma_index_of_at(r, t, k, insert_pos(s, t, k));
    }
}

/// A `get` right after a `del` of the same table and key finds nothing.
pub proof fn law_del_then_get(s: Seq<EntryView>, t: Seq<char>, k: Seq<char>)
    requires
        store_wf(s),
    ensures
        lookup(store_del(s, t, k), t, k) is None,
{
    lemma_index_of(s, t, k);
    let r = store_del(s, t, k);
    if let Some(i) = index_of(s, t, k) {
        lemma_index_of(r, t, k);
        if let Some(j) = index_of(r, t, k) {
            let j2 = if j < i { j } else { j + 1 };
            assert(r[j] == s[j2]);
        }
    }
}

/// After `set_many` of two pairs with different keys, `get_prefix` of that
/// table with the empty prefix returns both pairs.
pub proof fn law_set_many_then_get_prefix(
    s: Seq<EntryView>,
    t: Seq<char>,
    k1: Seq<char>,
    v1: Seq<u8>,
    k2: Seq<char>,
    v2: Seq<u8>,
)
    requires
        store_wf(s),
        k1 != k2,
    ensures
        prefix_entries(store_set_many(s, t, seq![(k1, v1), (k2, v2)]), t, seq![]).contains(
            (k1, v1),
        ),
        prefix_entries(store_set_many(s, t, seq![(k1, v1), (k2, v2)]), t, seq![]).contains(
            (k2, v2),
        ),
{
    let items = seq![(k1, v1), (k2, v2)];
    assert(items.drop_last() =~= seq![(k1, v1)]);
    assert(items.drop_last().drop_last() =~= Seq::<(Seq<char>, Seq<u8>)>::empty());
    let s1 = store_set(s, t, k1, v1);
    let s2 = store_set(s1, t, k2, v2);
    assert(items.last() == (k2, v2));
    assert(items.drop_last().last() == (k1, v1));
    assert(store_set_many(s, t, items.drop_last().drop_last()) == s);
    assert(store_set_many(s, t, items.drop_last()) == s1);
    assert(store_set_many(s, t, items) == s2);
    law_set_then_get(s, t, k1, v1);
    lemma_set_unique(s, t, k1, v1);
    law_set_then_get(s1, t, k2, v2);
    lemma_set_other(s1, t, k2, v2, k1);
    lemma_set_unique(s1, t, k2, v2);
    lemma_index_of(s2, t, k1);
    lemma_index_of(s2, t, k2);
    let i1 = index_of(s2, t, k1).unwrap();
    let i2 = index_of(s2, t, k2).unwrap();
    assert(s2[i1].1.subrange(0, 0) =~= Seq::<char>::empty());
    assert(s2[i2].1.subrange(0, 0) =~= Seq::<char>::empty());
    lemma_prefix_entries_has(s2, t, seq![], i1);
    lemma_prefix_entries_has(s2, t, seq![], i2);
}

/// Whether an item comes before (table, key).
fn entry_before(e: &KvEntry, table: &str, key: &str) -> (r: bool)
    ensures
        r == key_lt(ek(e@), (table@, key@)),
{
    text_less(e.table.as_str(), table) || (same_text(e.table.as_str(), table) && text_less(
        e.key.as_str(),
        key,
    ))
}

/// An in-memory store of byte values keyed by (table, key).
pub struct KvStore {
    entries: Vec<KvEntry>,
}

impl View for KvStore {
    type V = Seq<EntryView>;

    closed spec fn view(&self) -> Seq<EntryView> {
        self.entries@.map_values(|e: KvEntry| e@)
    }
}

impl KvStore {
    /// No two items share a (table, key) pair.
    pub open spec fn wf(&self) -> bool {
        store_wf(self@)
    }

    /// An empty store.
    pub fn new() -> (r: KvStore)
        ensures
            r.wf(),
            r@ == Seq::<EntryView>::empty(),
    {
        let r = KvStore { entries: Vec::new() };
        assert(r@ =~= Seq::<EntryView>::empty());
        r
    }

    /// The number of stored items.
    pub fn len(&self) -> (r: usize)
        ensures
            r == self@.len(),
    {
        self.entries.len()
    }

    fn find(&self, table: &str, key: &str) -> (r: Option<usize>)
        requires
            self.wf(),
        ensures
            match r {
                Some(i) => index_of(self@, table@, key@) == Some(i as int),
                None => index_of(self@, table@, key@) is None,
            },
            r matches Some(i) ==> i < self.entries@.len(),
    {
        let n = self.entries.len();
        let mut i: usize = 0;
        while i < n
            invariant
                self.wf(),
                n == self@.len(),
                i <= n,
                forall|j: int| 0 <= j < i ==> !has_key(#[trigger] self@[j], table@, key@),
            decreases n - i,
        {
            let e = &self.entries[i];
            assert(self@[i as int] == e@);
            if same_text(e.table.as_str(), table) && same_text(e.key.as_str(), key) {
                proof {
                    lemma_index_of_at(self@, table@, key@, i as int);
                }
                return Some(i);
            }
            i += 1;
        }
        proof {
            lemma_index_of(self@, table@, key@);
        }
        None
    }

    /// Where a new item of (table, key) goes.
    fn insert_position(&self, table: &str, key: &str) -> (r: usize)
        requires
            self.wf(),
            index_of(self@, table@, key@) is None,
        ensures
            r == insert_pos(self@, table@, key@),
            r <= self.entries@.len(),
    {
        proof {
            lemma_insert_pos(self@, table@, key@);
        }
        let n = self.entries.len();
        let mut j: usize = 0;
        while j < n && entry_before(&self.entries[j], table, key)
            invariant
                self.wf(),
                n == self@.len(),
                j <= n,
                forall|i: int| 0 <= i < j ==> key_lt(ek(#[trigger] self@[i]), (table@, key@)),
            decreases n - j,
        {
            assert(self@[j as int] == self.entries@[j as int]@);
            j += 1;
        }
        proof {
            let q = insert_pos(self@, table@, key@);
            if j > q {
                lemma_key_lt_total(ek(self@[q]), (table@, key@));
            }
            if j < q {
                assert(self@[j as int] == self.entries@[j as int]@);
            }
        }
        j
    }

    /// The value stored under (table, key); a missing key gives `None`.
    pub fn get(&self, table: &str, key: &str) -> (r: Option<Vec<u8>>)
        requires
            self.wf(),
        ensures
            opt_bytes_view(r) == lookup(self@, table@, key@),
    {
        match self.find(table, key) {
            Some(i) => {
                assert(self@[i as int] == self.entries@[i as int]@);
                Some(self.entries[i].value.clone())
            },
            None => None,
        }
    }

    /// Stores `value` under (table, key), replacing what was there.
    pub fn set(&mut self, table: String, key: String, value: Vec<u8>)
        requires
            old(self).wf(),
        ensures
            final(self).wf(),
            final(self)@ == store_set(old(self)@, table@, key@, value@),
    {
        let ghost s = self@;
        let ghost v = (table@, key@, value@);
        proof {
            lemma_set_unique(s, table@, key@, value@);
        }
        match self.find(table.as_str(), key.as_str()) {
            Some(i) => {
                self.entries.set(i, KvEntry { table, key, value });
                assert(self@ =~= s.update(i as int, v));
            },
            None => {
                let pos = self.insert_position(table.as_str(), key.as_str());
                self.entries.insert(pos, KvEntry { table, key, value });
                assert(self@ =~= s.insert(pos as int, v));
            },
        }
    }

    /// Removes the item of (table, key); a missing key is no error.
    pub fn del(&mut self, table: &str, key: &str)
        requires
            old(self).wf(),
        ensures
            final(self).wf(),
            final(self)@ == store_del(old(self)@, table@, key@),
    {
        let ghost s = self@;
        proof {
            lemma_del_unique(s, table@, key@);
        }
        match self.find(table, key) {
            Some(i) => {
                self.entries.remove(i);
                assert(self@ =~= s.remove(i as int));
            },
            None => {},
        }
    }

    /// The (key, value) pairs of `table` whose key starts with `prefix`, in
    /// ascending key order.
    pub fn get_prefix(&self, table: &str, prefix: &str) -> (r: Vec<(String, Vec<u8>)>)
        requires
            self.wf(),
        ensures
            pairs_view(r@) == prefix_entries(self@, table@, prefix@),
            keys_ascending(pairs_view(r@)),
    {
        let n = self.entries.len();
        let mut r: Vec<(String, Vec<u8>)> = Vec::new();
        let mut i: usize = 0;
        while i < n
            invariant
                n == self@.len(),
                i <= n,
                pairs_view(r@) == prefix_entries(self@.take(i as int), table@, prefix@),
            decreases n - i,
        {
            let e = &self.entries[i];
            assert(self@[i as int] == e@);
            assert(self@.take(i as int + 1).drop_last() =~= self@.take(i as int));
            assert(self@.take(i as int + 1).last() == e@);
            if same_text(e.table.as_str(), table) && starts_with(e.key.as_str(), prefix) {
                let ghost before = r@;
                r.push((e.key.clone(), e.value.clone()));
                assert(pairs_view(r@) =~= pairs_view(before).push((e.key@, e.value@)));
            }
            i += 1;
        }
        assert(self@.take(n as int) =~= self@);
        proof {
            lemma_prefix_sorted(self@, table@, prefix@);
        }
        r
    }

    /// Stores each (key, value) pair under `table`, in order.
    pub fn set_many(&mut self, table: String, items: Vec<(String, Vec<u8>)>)
        requires
            old(self).wf(),
        ensures
            final(self).wf(),
            final(self)@ == store_set_many(old(self)@, table@, pairs_view(items@)),
    {
        let ghost s = self@;
        let ghost all = pairs_view(items@);
        let n = items.len();
        let mut i: usize = 0;
        while i < n
            invariant
                self.wf(),
                n == items@.len(),
                all == pairs_view(items@),
                i <= n,
                self@ == store_set_many(s, table@, all.take(i as int)),
            decreases n - i,
        {
            let item = &items[i];
            assert(all.take(i as int + 1).drop_last() =~= all.take(i as int));
            assert(all.take(i as int + 1).last() == (item.0@, item.1@));
            self.set(table.clone(), item.0.clone(), item.1.clone());
            i += 1;
        }
        assert(all.take(n as int) =~= all);
    }

    /// Removes the items of `table` whose key starts with `prefix`, and
    /// returns how many went.
    pub fn del_prefix(&mut self, table: &str, prefix: &str) -> (r: u64)
        requires
            old(self).wf(),
        ensures
            final(self).wf(),
            final(self)@ == outside_prefix(old(self)@, table@, prefix@),
            r == old(self)@.len() - final(self)@.len(),
    {
        let ghost s = self@;
        let n = self.entries.len();
        let mut kept: Vec<KvEntry> = Vec::new();
        let mut i: usize = 0;
        let mut removed: usize = 0;
        while i < n
            invariant
                n == s.len(),
                s == self@,
                i <= n,
                kept@.map_values(|e: KvEntry| e@) == outside_prefix(s.take(i as int), table@, prefix@),
                removed + kept@.len() == i,
            decreases n - i,
        {
            let e = &self.entries[i];
            assert(s[i as int] == e@);
            assert(s.take(i as int + 1).drop_last() =~= s.take(i as int));
            assert(s.take(i as int + 1).last() == e@);
            if same_text(e.table.as_str(), table) && starts_with(e.key.as_str(), prefix) {
                removed += 1;
            } else {
                let ghost before = kept@.map_values(|e: KvEntry| e@);
                kept.push(KvEntry {
                    table: e.table.clone(),
                    key: e.key.clone(),
                    value: e.value.clone(),
                });
                assert(kept@.map_values(|e: KvEntry| e@) =~= before.push(e@));
            }
            i += 1;
        }
        assert(s.take(n as int) =~= s);
        proof {
            lemma_outside_from(s, table@, prefix@);
        }
        self.entries = kept;
        removed as u64
    }
}

} // verus!
