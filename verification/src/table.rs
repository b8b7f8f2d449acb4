//! Name-keyed tables kept in key order: the model of a `BTreeMap` with
//! `String` keys. Keys are ordered as `str` orders them (byte-wise on UTF-8,
//! which is code-point order), each key occurs once, and the table's view is
//! the map from key to value.

use vstd::prelude::*;

use crate::text::{chars_of, str_eq};

verus! {

/// Strict lexicographic order on character sequences.
pub open spec fn seq_lt(a: Seq<char>, b: Seq<char>) -> bool
    decreases a.len(),
{
    if b.len() == 0 {
        false
    } else if a.len() == 0 {
        true
    } else if a[0] != b[0] {
        a[0] < b[0]
    } else {
        seq_lt(a.drop_first(), b.drop_first())
    }
}

/// No sequence precedes itself.
pub proof fn lemma_lt_irreflexive(a: Seq<char>)
    ensures
        !seq_lt(a, a),
    decreases a.len(),
{
    if a.len() > 0 {
        lemma_lt_irreflexive(a.drop_first());
    }
}

/// The order is transitive.
pub proof fn lemma_lt_transitive(a: Seq<char>, b: Seq<char>, c: Seq<char>)
    requires
        seq_lt(a, b),
        seq_lt(b, c),
    ensures
        seq_lt(a, c),
    decreases a.len(),
{
    if a.len() > 0 && b.len() > 0 && c.len() > 0 && a[0] == b[0] && b[0] == c[0] {
        lemma_lt_transitive(a.drop_first(), b.drop_first(), c.drop_first());
    }
}

/// Any two sequences are equal or ordered one way.
pub proof fn lemma_lt_total(a: Seq<char>, b: Seq<char>)
    ensures
        a == b || seq_lt(a, b) || seq_lt(b, a),
    decreases a.len(),
{
    if a.len() > 0 && b.len() > 0 && a[0] == b[0] {
        lemma_lt_total(a.drop_first(), b.drop_first());
        if a.drop_first() == b.drop_first() {
            assert(a =~= seq![a[0]] + a.drop_first());
            assert(b =~= seq![b[0]] + b.drop_first());
        }
    } else if a.len() == 0 && b.len() == 0 {
        assert(a =~= b);
    }
}

/// The keys of a table appear in strictly increasing order.
pub open spec fn sorted_keys<V>(t: Seq<(String, V)>) -> bool {
    forall|i: int, j: int| 0 <= i < j < t.len() ==> seq_lt(#[trigger] t[i].0@, #[trigger] t[j].0@)
}

/// `k` is a key of the table.
pub open spec fn has_key<V>(t: Seq<(String, V)>, k: Seq<char>) -> bool {
    exists|i: int| 0 <= i < t.len() && #[trigger] t[i].0@ == k
}

/// The position of key `k` (meaningful when `has_key`).
pub open spec fn key_index<V>(t: Seq<(String, V)>, k: Seq<char>) -> int {
    choose|i: int| 0 <= i < t.len() && #[trigger] t[i].0@ == k
}

/// The map a table stands for.
pub open spec fn table_view<V>(t: Seq<(String, V)>) -> Map<Seq<char>, V> {
    Map::new(|k: Seq<char>| has_key(t, k), |k: Seq<char>| t[key_index(t, k)].1)
}

/// In a sorted table a key sits at one position only.
pub proof fn lemma_sorted_unique<V>(t: Seq<(String, V)>, i: int, j: int)
    requires
        sorted_keys(t),
        0 <= i < t.len(),
        0 <= j < t.len(),
        t[i].0@ == t[j].0@,
    ensures
        i == j,
{
    if i < j {
        lemma_lt_irreflexive(t[i].0@);
    } else if j < i {
        lemma_lt_irreflexive(t[i].0@);
    }
}

/// In a sorted table, the entry at position `i` is what the view holds for
/// its key.
pub proof fn lemma_view_at<V>(t: Seq<(String, V)>, i: int)
    requires
        sorted_keys(t),
        0 <= i < t.len(),
    ensures
        table_view(t).contains_key(t[i].0@),
        table_view(t)[t[i].0@] == t[i].1,
{
    let k = t[i].0@;
    assert(has_key(t, k));
    let j = key_index(t, k);
    lemma_sorted_unique(t, i, j);
}

/// Strict lexicographic comparison of two character slices.
pub fn chars_lt(a: &[char], b: &[char]) -> (r: bool)
    ensures
        r == seq_lt(a@, b@),
{
    let mut i: usize = 0;
    assert(a@.skip(0) == a@);
    assert(b@.skip(0) == b@);
    while i < a.len() && i < b.len()
        invariant
            i <= a@.len(),
            i <= b@.len(),
            a@.subrange(0, i as int) == b@.subrange(0, i as int),
            seq_lt(a@, b@) == seq_lt(a@.skip(i as int), b@.skip(i as int)),
        decreases a@.len() - i,
    {
        let ghost sa = a@.skip(i as int);
        let ghost sb = b@.skip(i as int);
        assert(sa.drop_first() == a@.skip(i + 1));
        assert(sb.drop_first() == b@.skip(i + 1));
        if a[i] != b[i] {
            return a[i] < b[i];
        }
        assert(a@.subrange(0, i + 1) == a@.subrange(0, i as int).push(a@[i as int]));
        assert(b@.subrange(0, i + 1) == b@.subrange(0, i as int).push(b@[i as int]));
        i = i + 1;
    }
    i < b.len()
}

/// Strict order of two strings.
pub fn str_lt(a: &str, b: &str) -> (r: bool)
    ensures
        r == seq_lt(a@, b@),
{
    let x = chars_of(a);
    let y = chars_of(b);
    chars_lt(&x, &y)
}

/// The position of `key` in a table, if it is a key.
pub fn table_find<V>(t: &Vec<(String, V)>, key: &str) -> (r: Option<usize>)
    ensures
        r is None ==> !has_key(t@, key@),
        r matches Some(i) ==> i < t@.len() && t@[i as int].0@ == key@,
{
    let mut i: usize = 0;
    while i < t.len()
        invariant
            i <= t@.len(),
            forall|j: int| 0 <= j < i ==> t@[j].0@ != key@,
        decreases t@.len() - i,
    {
        if str_eq(t[i].0.as_str(), key) {
            return Some(i);
        }
        i = i + 1;
    }
    None
}

/// Where a new key goes: after every smaller key, before every greater one.
fn insert_position<V>(t: &Vec<(String, V)>, key: &str) -> (p: usize)
    requires
        sorted_keys(t@),
        !has_key(t@, key@),
    ensures
        p <= t@.len(),
        forall|j: int| 0 <= j < p ==> seq_lt(#[trigger] t@[j].0@, key@),
        forall|j: int| p <= j < t@.len() ==> seq_lt(key@, #[trigger] t@[j].0@),
{
    let mut p: usize = 0;
    while p < t.len()
        invariant
            p <= t@.len(),
            sorted_keys(t@),
            !has_key(t@, key@),
            forall|j: int| 0 <= j < p ==> seq_lt(#[trigger] t@[j].0@, key@),
        decreases t@.len() - p,
    {
        if !str_lt(t[p].0.as_str(), key) {
            proof {
                assert(t@[p as int].0@ != key@);
                lemma_lt_total(t@[p as int].0@, key@);
                assert forall|j: int| p <= j < t@.len() implies seq_lt(key@, #[trigger] t@[j].0@) by {
                    if j > p {
                        lemma_lt_transitive(key@, t@[p as int].0@, t@[j].0@);
                    }
                }
            }
            return p;
        }
        p = p + 1;
    }
    p
}

/// Insert or replace the value under `key`, keeping the table sorted.
pub fn table_insert<V>(t: &mut Vec<(String, V)>, key: String, val: V)
    requires
        sorted_keys(old(t)@),
    ensures
        sorted_keys(final(t)@),
        table_view(final(t)@) == table_view(old(t)@).insert(key@, val),
{
    let ghost k = key@;
    match table_find(t, key.as_str()) {
        Some(i) => {
            let ghost before = t@;
            t.set(i, (key, val));
            proof {
                assert(t@ == before.update(i as int, (t@[i as int].0, val)));
                assert(sorted_keys(t@)) by {
                    assert forall|a: int, b: int| 0 <= a < b < t@.len() implies seq_lt(
                        #[trigger] t@[a].0@,
                        #[trigger] t@[b].0@,
                    ) by {
                        assert(t@[a].0@ == before[a].0@);
                        assert(t@[b].0@ == before[b].0@);
                    }
                }
                lemma_table_update(before, t@, i as int, val);
            }
        },
        None => {
            let p = insert_position(t, key.as_str());
            let ghost before = t@;
            t.insert(p, (key, val));
            proof {
                lemma_table_inserted(before, t@, p as int, k, val);
            }
        },
    }
}

/// Replacing the value at a position changes the view at that key only.
proof fn lemma_table_update<V>(before: Seq<(String, V)>, after: Seq<(String, V)>, i: int, val: V)
    requires
        sorted_keys(before),
        sorted_keys(after),
        0 <= i < before.len(),
        after.len() == before.len(),
        after[i].1 == val,
        forall|j: int| 0 <= j < before.len() ==> (#[trigger] after[j]).0@ == before[j].0@,
        forall|j: int| 0 <= j < before.len() && j != i ==> #[trigger] after[j] == before[j],
    ensures
        table_view(after) == table_view(before).insert(before[i].0@, val),
{
    let k = before[i].0@;
    assert forall|x: Seq<char>| has_key(after, x) == (has_key(before, x) || x == k) by {
        if has_key(after, x) {
            let j = choose|j: int| 0 <= j < after.len() && #[trigger] after[j].0@ == x;
            assert(before[j].0@ == x);
        }
        if has_key(before, x) {
            let j = choose|j: int| 0 <= j < before.len() && #[trigger] before[j].0@ == x;
            assert(after[j].0@ == x);
        }
        if x == k {
            assert(after[i].0@ == x);
        }
    }
    assert forall|x: Seq<char>| #[trigger] table_view(after).contains_key(x) implies table_view(after)[x]
        == table_view(before).insert(k, val)[x] by {
        let j = key_index(after, x);
        if x == k {
            lemma_sorted_unique(after, i, j);
        } else {
            let jb = key_index(before, x);
            assert(before[j].0@ == x);
            lemma_sorted_unique(before, j, jb);
        }
    }
    assert(table_view(after) =~= table_view(before).insert(k, val));
}

/// Inserting a new key at its place adds exactly that key to the view.
proof fn lemma_table_inserted<V>(
    before: Seq<(String, V)>,
    after: Seq<(String, V)>,
    p: int,
    k: Seq<char>,
    val: V,
)
    requires
        sorted_keys(before),
        0 <= p <= before.len(),
        forall|j: int| 0 <= j < p ==> seq_lt(#[trigger] before[j].0@, k),
        forall|j: int| p <= j < before.len() ==> seq_lt(k, #[trigger] before[j].0@),
        after.len() == before.len() + 1,
        after[p].0@ == k,
        after[p].1 == val,
        forall|j: int| 0 <= j < p ==> #[trigger] after[j] == before[j],
        forall|j: int| p < j < after.len() ==> #[trigger] after[j] == before[j - 1],
    ensures
        sorted_keys(after),
        table_view(after) == table_view(before).insert(k, val),
{
    assert forall|a: int, b: int| 0 <= a < b < after.len() implies seq_lt(
        #[trigger] after[a].0@,
        #[trigger] after[b].0@,
    ) by {
        if b < p {
        } else if b == p {
        } else if a < p {
            assert(after[b] == before[b - 1]);
            lemma_lt_transitive(after[a].0@, k, after[b].0@);
        } else if a == p {
            assert(after[b] == before[b - 1]);
        } else {
            assert(after[a] == before[a - 1]);
            assert(after[b] == before[b - 1]);
        }
    }
    assert forall|x: Seq<char>| has_key(after, x) == (has_key(before, x) || x == k) by {
        if has_key(after, x) {
            let j = choose|j: int| 0 <= j < after.len() && #[trigger] after[j].0@ == x;
            if j < p {
                assert(before[j].0@ == x);
            } else if j > p {
                assert(after[j] == before[j - 1]);
                assert(before[j - 1].0@ == x);
            }
        }
        if has_key(before, x) {
            let j = choose|j: int| 0 <= j < before.len() && #[trigger] before[j].0@ == x;
            if j < p {
                assert(after[j] == before[j]);
                assert(after[j].0@ == x);
            } else {
                assert(after[j + 1] == before[j]);
                assert(after[j + 1].0@ == x);
            }
        }
        if x == k {
            assert(after[p].0@ == x);
        }
    }
    assert forall|x: Seq<char>| #[trigger] table_view(after).contains_key(x) implies table_view(after)[x]
        == table_view(before).insert(k, val)[x] by {
        let j = key_index(after, x);
        if x == k {
            lemma_sorted_unique(after, p, j);
        } else {
            let jb = key_index(before, x);
            if j < p {
                assert(after[j] == before[j]);
                lemma_sorted_unique(before, j, jb);
            } else {
                assert(j != p);
                assert(after[j] == before[j - 1]);
                lemma_sorted_unique(before, j - 1, jb);
            }
        }
    }
    assert(table_view(after) =~= table_view(before).insert(k, val));
}

/// Remove `key` from a table (nothing happens if it is absent).
pub fn table_remove<V>(t: &mut Vec<(String, V)>, key: &str)
    requires
        sorted_keys(old(t)@),
    ensures
        sorted_keys(final(t)@),
        table_view(final(t)@) == table_view(old(t)@).remove(key@),
{
    match table_find(t, key) {
        None => {
            assert(table_view(t@) =~= table_view(t@).remove(key@));
        },
        Some(i) => {
            let ghost before = t@;
            t.remove(i);
            proof {
                lemma_table_removed(before, t@, i as int);
            }
        },
    }
}

/// Removing the entry at a position removes exactly its key from the view.
proof fn lemma_table_removed<V>(before: Seq<(String, V)>, after: Seq<(String, V)>, i: int)
    requires
        sorted_keys(before),
        0 <= i < before.len(),
        after == before.remove(i),
    ensures
        sorted_keys(after),
        table_view(after) == table_view(before).remove(before[i].0@),
{
    let k = before[i].0@;
    assert forall|a: int, b: int| 0 <= a < b < after.len() implies seq_lt(
        #[trigger] after[a].0@,
        #[trigger] after[b].0@,
    ) by {
        let a2 = if a < i { a } else { a + 1 };
        let b2 = if b < i { b } else { b + 1 };
        assert(after[a] == before[a2]);
        assert(after[b] == before[b2]);
    }
    assert forall|x: Seq<char>| has_key(after, x) == (has_key(before, x) && x != k) by {
        if has_key(after, x) {
            let j = choose|j: int| 0 <= j < after.len() && #[trigger] after[j].0@ == x;
            let j2 = if j < i { j } else { j + 1 };
            assert(after[j] == before[j2]);
            assert(before[j2].0@ == x);
            if x == k {
                lemma_sorted_unique(before, i, j2);
            }
        }
        if has_key(before, x) && x != k {
            let j = choose|j: int| 0 <= j < before.len() && #[trigger] before[j].0@ == x;
            if j < i {
                assert(after[j] == before[j]);
                assert(after[j].0@ == x);
            } else {
                assert(j != i);
                assert(after[j - 1] == before[j]);
                assert(after[j - 1].0@ == x);
            }
        }
    }
    assert forall|x: Seq<char>| #[trigger] table_view(after).contains_key(x) implies table_view(after)[x]
        == table_view(before)[x] by {
        let j = key_index(after, x);
        let j2 = if j < i { j } else { j + 1 };
        assert(after[j] == before[j2]);
        let jb = key_index(before, x);
        lemma_sorted_unique(before, j2, jb);
    }
    assert(table_view(after) =~= table_view(before).remove(k));
}

} // verus!
