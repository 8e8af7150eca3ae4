//! Maps in BCS: entries are written in the lexicographic order of their
//! serialized keys, and a key may occur only once.

use crate::bytes_order::{
    bytes_less_than, bytes_lt, lemma_bytes_lt_asymmetric, lemma_bytes_lt_irreflexive,
    lemma_bytes_lt_total, lemma_bytes_lt_transitive,
};
use crate::uleb128::uleb128_bytes;
use vstd::prelude::*;

verus! {

/// What a map entry is made of: the serialized key and the serialized value.
pub open spec fn entry_view(e: (Vec<u8>, Vec<u8>)) -> (Seq<u8>, Seq<u8>) {
    (e.0@, e.1@)
}

/// The serialized keys and values of a sequence of entries.
pub open spec fn entries_view(v: Seq<(Vec<u8>, Vec<u8>)>) -> Seq<(Seq<u8>, Seq<u8>)> {
    v.map_values(|e: (Vec<u8>, Vec<u8>)| entry_view(e))
}

/// Each key comes strictly before the next one.
pub open spec fn keys_strictly_increasing(s: Seq<(Seq<u8>, Seq<u8>)>) -> bool {
    forall|i: int, j: int| 0 <= i < j < s.len() ==> bytes_lt(#[trigger] s[i].0, #[trigger] s[j].0)
}

/// Two entries at different positions have the same key.
pub open spec fn has_duplicate_keys(e: Seq<(Seq<u8>, Seq<u8>)>) -> bool {
    exists|a: int, b: int|
        0 <= a < e.len() && 0 <= b < e.len() && a != b && #[trigger] e[a].0 == #[trigger] e[b].0
}

/// The entries of `c` listed by increasing key.
pub open spec fn sorted_entries_of(c: Set<(Seq<u8>, Seq<u8>)>) -> Seq<(Seq<u8>, Seq<u8>)> {
    choose|s: Seq<(Seq<u8>, Seq<u8>)>| keys_strictly_increasing(s) && s.to_set() == c
}

/// The entries of `e` in the order in which BCS writes them.
pub open spec fn canonical_entries(e: Seq<(Seq<u8>, Seq<u8>)>) -> Seq<(Seq<u8>, Seq<u8>)> {
    sorted_entries_of(e.to_set())
}

/// Each key followed by its value, one entry after the other.
pub open spec fn entries_bytes(s: Seq<(Seq<u8>, Seq<u8>)>) -> Seq<u8>
    decreases s.len(),
{
    if s.len() == 0 {
        Seq::empty()
    } else {
        entries_bytes(s.drop_last()) + s.last().0 + s.last().1
    }
}

/// The BCS encoding of a map with the given entries (when no key repeats):
/// the number of entries, then the entries by increasing key.
pub open spec fn map_bytes(e: Seq<(Seq<u8>, Seq<u8>)>) -> Seq<u8> {
    uleb128_bytes(e.len()) + entries_bytes(canonical_entries(e))
}

/// Two sequences sorted strictly by key that hold the same entries are equal.
pub proof fn lemma_sorted_entries_unique(s: Seq<(Seq<u8>, Seq<u8>)>, t: Seq<(Seq<u8>, Seq<u8>)>)
    requires
        keys_strictly_increasing(s),
        keys_strictly_increasing(t),
        s.to_set() == t.to_set(),
    ensures
        s == t,
    decreases s.len(),
{
    if s.len() == 0 {
        if t.len() > 0 {
            assert(t.to_set().contains(t[0]));
        }
        assert(s =~= t);
    } else {
        assert(s.to_set().contains(s[0]));
        assert(t.contains(s[0]));
        let m = choose|m: int| 0 <= m < t.len() && t[m] == s[0];
        assert(s.contains(t[0])) by {
            assert(t.to_set().contains(t[0]));
        }
        let n = choose|n: int| 0 <= n < s.len() && s[n] == t[0];
        if m > 0 {
            assert(bytes_lt(t[0].0, t[m].0));
            if n > 0 {
                assert(bytes_lt(s[0].0, s[n].0));
                lemma_bytes_lt_asymmetric(s[0].0, s[n].0);
            } else {
                lemma_bytes_lt_irreflexive(s[0].0);
            }
        }
        assert(t[0] == s[0]);
        let s1 = s.drop_first();
        let t1 = t.drop_first();
        assert forall|x: (Seq<u8>, Seq<u8>)| s1.contains(x) implies t1.contains(x) by {
            let j = choose|j: int| 0 <= j < s1.len() && s1[j] == x;
            assert(s[j + 1] == x);
            assert(s.to_set().contains(x));
            let k = choose|k: int| 0 <= k < t.len() && t[k] == x;
            assert(bytes_lt(s[0].0, s[j + 1].0));
            if k == 0 {
                lemma_bytes_lt_irreflexive(s[0].0);
            }
            assert(t1[k - 1] == x);
        }
        assert forall|x: (Seq<u8>, Seq<u8>)| t1.contains(x) implies s1.contains(x) by {
            let j = choose|j: int| 0 <= j < t1.len() && t1[j] == x;
            assert(t[j + 1] == x);
            assert(t.to_set().contains(x));
            let k = choose|k: int| 0 <= k < s.len() && s[k] == x;
            assert(bytes_lt(t[0].0, t[j + 1].0));
            if k == 0 {
                lemma_bytes_lt_irreflexive(t[0].0);
            }
            assert(s1[k - 1] == x);
        }
        assert(s1.to_set() =~= t1.to_set());
        lemma_sorted_entries_unique(s1, t1);
        assert(s =~= seq![s[0]] + s1);
        assert(t =~= seq![t[0]] + t1);
    }
}

/// A sequence sorted strictly by key that holds exactly the entries of `e` is
/// the canonical order of `e`.
pub proof fn lemma_canonical_entries_of_sorted(
    s: Seq<(Seq<u8>, Seq<u8>)>,
    e: Seq<(Seq<u8>, Seq<u8>)>,
)
    requires
        keys_strictly_increasing(s),
        s.to_set() == e.to_set(),
    ensures
        canonical_entries(e) == s,
{
    let t = canonical_entries(e);
    assert(keys_strictly_increasing(t) && t.to_set() == e.to_set());
    lemma_sorted_entries_unique(s, t);
}


/// If `e2` holds the same entries as `e1`, as many times each, and two entries of
/// `e2` share a key, then two entries of `e1` share a key.
proof fn lemma_duplicate_keys_transfer(e1: Seq<(Seq<u8>, Seq<u8>)>, e2: Seq<(Seq<u8>, Seq<u8>)>)
    requires
        e1.to_multiset() == e2.to_multiset(),
        has_duplicate_keys(e2),
    ensures
        has_duplicate_keys(e1),
{
    broadcast use vstd::seq_lib::group_to_multiset_ensures;

    let (a, b) = choose|a: int, b: int|
        0 <= a < e2.len() && 0 <= b < e2.len() && a != b && #[trigger] e2[a].0 == #[trigger] e2[b].0;
    if e2[a] != e2[b] {
        assert(e2.contains(e2[a]));
        assert(e2.contains(e2[b]));
        assert(e2.to_multiset().count(e2[a]) > 0);
        assert(e1.to_multiset().count(e2[a]) > 0);
        assert(e2.to_multiset().count(e2[b]) > 0);
        assert(e1.to_multiset().count(e2[b]) > 0);
        assert(e1.contains(e2[a]));
        assert(e1.contains(e2[b]));
        let i = choose|i: int| 0 <= i < e1.len() && e1[i] == e2[a];
        let j = choose|j: int| 0 <= j < e1.len() && e1[j] == e2[b];
        assert(e1[i].0 == e1[j].0);
    } else {
        assert(!e2.no_duplicates());
        if e1.no_duplicates() {
            e1.lemma_multiset_has_no_duplicates();
            e2.lemma_multiset_has_no_duplicates_conv();
        }
        let (i, j) = choose|i: int, j: int|
            0 <= i < e1.len() && 0 <= j < e1.len() && i != j && e1[i] == e1[j];
        assert(e1[i].0 == e1[j].0);
    }
}

/// The encoding of a map does not depend on the order in which its entries were
/// given: entries that are a rearrangement of each other have the same
/// encoding, and repeat a key in both or in neither.
pub proof fn lemma_map_bytes_order_independent(
    e1: Seq<(Seq<u8>, Seq<u8>)>,
    e2: Seq<(Seq<u8>, Seq<u8>)>,
)
    requires
        e1.to_multiset() == e2.to_multiset(),
    ensures
        map_bytes(e1) == map_bytes(e2),
        has_duplicate_keys(e1) <==> has_duplicate_keys(e2),
{
    broadcast use vstd::seq_lib::group_to_multiset_ensures;

    vstd::seq_lib::to_multiset_len(e1);
    vstd::seq_lib::to_multiset_len(e2);
    assert(e1.len() == e2.len());
    assert forall|x: (Seq<u8>, Seq<u8>)| e1.contains(x) <==> e2.contains(x) by {
        vstd::seq_lib::to_multiset_contains(e1, x);
        vstd::seq_lib::to_multiset_contains(e2, x);
    }
    assert(e1.to_set() =~= e2.to_set());
    if has_duplicate_keys(e2) {
        lemma_duplicate_keys_transfer(e1, e2);
    }
    if has_duplicate_keys(e1) {
        lemma_duplicate_keys_transfer(e2, e1);
    }
}

/// `s` with `x` put before the first entry whose key comes after the key of `x`.
pub open spec fn insert_by_key(s: Seq<(Seq<u8>, Seq<u8>)>, x: (Seq<u8>, Seq<u8>)) -> Seq<
    (Seq<u8>, Seq<u8>),
>
    decreases s.len(),
{
    if s.len() == 0 {
        seq![x]
    } else if bytes_lt(x.0, s[0].0) {
        seq![x] + s
    } else {
        seq![s[0]] + insert_by_key(s.drop_first(), x)
    }
}

proof fn lemma_insert_by_key(s: Seq<(Seq<u8>, Seq<u8>)>, x: (Seq<u8>, Seq<u8>))
    requires
        keys_strictly_increasing(s),
        forall|k: int| 0 <= k < s.len() ==> #[trigger] s[k].0 != x.0,
    ensures
        keys_strictly_increasing(insert_by_key(s, x)),
        insert_by_key(s, x).to_set() == s.to_set().insert(x),
        insert_by_key(s, x).len() == s.len() + 1,
        forall|k: int|
            0 <= k < insert_by_key(s, x).len() ==> #[trigger] insert_by_key(s, x)[k] == x || s.contains(
                insert_by_key(s, x)[k],
            ),
    decreases s.len(),
{
    let r = insert_by_key(s, x);
    if s.len() == 0 {
        assert(r.to_set() =~= s.to_set().insert(x)) by {
            assert forall|y: (Seq<u8>, Seq<u8>)| r.contains(y) <==> y == x by {
                if r.contains(y) {
                    let k = choose|k: int| 0 <= k < r.len() && r[k] == y;
                }
                if y == x {
                    assert(r[0] == x);
                }
            }
        }
    } else if bytes_lt(x.0, s[0].0) {
        assert forall|i: int, j: int| 0 <= i < j < r.len() implies bytes_lt(
            #[trigger] r[i].0,
            #[trigger] r[j].0,
        ) by {
            if i == 0 {
                if j > 1 {
                    lemma_bytes_lt_transitive(x.0, s[0].0, s[j - 1].0);
                }
            } else {
                assert(r[i] == s[i - 1] && r[j] == s[j - 1]);
            }
        }
        assert forall|y: (Seq<u8>, Seq<u8>)| r.contains(y) <==> s.to_set().insert(x).contains(y) by {
            if r.contains(y) {
                let k = choose|k: int| 0 <= k < r.len() && r[k] == y;
                if k > 0 {
                    assert(s[k - 1] == y);
                }
            }
            if s.contains(y) {
                let k = choose|k: int| 0 <= k < s.len() && s[k] == y;
                assert(r[k + 1] == y);
            }
            if y == x {
                assert(r[0] == x);
            }
        }
        assert(r.to_set() =~= s.to_set().insert(x));
        assert forall|k: int| 0 <= k < r.len() implies #[trigger] r[k] == x || s.contains(r[k]) by {
            if k > 0 {
                assert(r[k] == s[k - 1]);
            }
        }
    } else {
        let t = s.drop_first();
        assert forall|k: int| 0 <= k < t.len() implies #[trigger] t[k].0 != x.0 by {
            assert(t[k] == s[k + 1]);
        }
        assert forall|i: int, j: int| 0 <= i < j < t.len() implies bytes_lt(
            #[trigger] t[i].0,
            #[trigger] t[j].0,
        ) by {
            assert(t[i] == s[i + 1] && t[j] == s[j + 1]);
        }
        lemma_insert_by_key(t, x);
        let rt = insert_by_key(t, x);
        assert(r == seq![s[0]] + rt);
        lemma_bytes_lt_total(x.0, s[0].0);
        assert(bytes_lt(s[0].0, x.0));
        assert forall|i: int, j: int| 0 <= i < j < r.len() implies bytes_lt(
            #[trigger] r[i].0,
            #[trigger] r[j].0,
        ) by {
            if i == 0 {
                assert(r[j] == rt[j - 1]);
                if rt[j - 1] != x {
                    let m = choose|m: int| 0 <= m < t.len() && t[m] == rt[j - 1];
                    assert(t[m] == s[m + 1]);
                }
            } else {
                assert(r[i] == rt[i - 1] && r[j] == rt[j - 1]);
            }
        }
        assert forall|y: (Seq<u8>, Seq<u8>)| r.contains(y) <==> s.to_set().insert(x).contains(y) by {
            if r.contains(y) {
                let k = choose|k: int| 0 <= k < r.len() && r[k] == y;
                if k == 0 {
                    assert(s[0] == y);
                }
                if k > 0 {
                    assert(rt[k - 1] == y);
                    assert(rt.to_set().contains(y));
                    if y != x {
                        assert(t.contains(y));
                        let m = choose|m: int| 0 <= m < t.len() && t[m] == y;
                        assert(s[m + 1] == y);
                    }
                }
            }
            if s.contains(y) {
                let k = choose|k: int| 0 <= k < s.len() && s[k] == y;
                if k == 0 {
                    assert(r[0] == y);
                }
                if k > 0 {
                    assert(t[k - 1] == y);
                    assert(t.to_set().insert(x).contains(y));
                    assert(rt.contains(y));
                    let m = choose|m: int| 0 <= m < rt.len() && rt[m] == y;
                    assert(r[m + 1] == y);
                }
            }
            if y == x {
                assert(rt.to_set().contains(x));
                let m = choose|m: int| 0 <= m < rt.len() && rt[m] == x;
                assert(r[m + 1] == x);
            }
        }
        assert(r.to_set() =~= s.to_set().insert(x));
        assert forall|k: int| 0 <= k < r.len() implies #[trigger] r[k] == x || s.contains(r[k]) by {
            if k > 0 {
                assert(r[k] == rt[k - 1]);
                if rt[k - 1] != x {
                    let m = choose|m: int| 0 <= m < t.len() && t[m] == rt[k - 1];
                    assert(s[m + 1] == r[k]);
                }
            }
        }
    }
}

/// Entries without a repeated key can be listed by strictly increasing key, one
/// position for each entry: the canonical order of a map always exists, and
/// holds exactly its entries.
pub proof fn lemma_canonical_entries_sorted(e: Seq<(Seq<u8>, Seq<u8>)>)
    requires
        !has_duplicate_keys(e),
    ensures
        keys_strictly_increasing(canonical_entries(e)),
        canonical_entries(e).to_set() == e.to_set(),
        canonical_entries(e).len() == e.len(),
{
    lemma_sorted_arrangement(e);
    let s = sorted_arrangement(e);
    lemma_canonical_entries_of_sorted(s, e);
}

/// A listing of the entries of `e` by strictly increasing key.
spec fn sorted_arrangement(e: Seq<(Seq<u8>, Seq<u8>)>) -> Seq<(Seq<u8>, Seq<u8>)>
    decreases e.len(),
{
    if e.len() == 0 {
        Seq::empty()
    } else {
        insert_by_key(sorted_arrangement(e.drop_last()), e.last())
    }
}

proof fn lemma_sorted_arrangement(e: Seq<(Seq<u8>, Seq<u8>)>)
    requires
        !has_duplicate_keys(e),
    ensures
        keys_strictly_increasing(sorted_arrangement(e)),
        sorted_arrangement(e).to_set() == e.to_set(),
        sorted_arrangement(e).len() == e.len(),
    decreases e.len(),
{
    if e.len() == 0 {
        assert(e.to_set() =~= Set::<(Seq<u8>, Seq<u8>)>::empty());
        assert(sorted_arrangement(e).to_set() =~= Set::<(Seq<u8>, Seq<u8>)>::empty());
    } else {
        let d = e.drop_last();
        let x = e.last();
        assert(!has_duplicate_keys(d)) by {
            if has_duplicate_keys(d) {
                let (a, b) = choose|a: int, b: int|
                    0 <= a < d.len() && 0 <= b < d.len() && a != b && #[trigger] d[a].0
                        == #[trigger] d[b].0;
                assert(e[a].0 == e[b].0);
            }
        }
        lemma_sorted_arrangement(d);
        let s = sorted_arrangement(d);
        assert forall|k: int| 0 <= k < s.len() implies #[trigger] s[k].0 != x.0 by {
            assert(s.to_set().contains(s[k]));
            assert(d.contains(s[k]));
            let m = choose|m: int| 0 <= m < d.len() && d[m] == s[k];
            assert(e[m] == s[k]);
            assert(e[e.len() - 1] == x);
        }
        lemma_insert_by_key(s, x);
        assert(e.to_set() =~= d.to_set().insert(x)) by {
            assert forall|y: (Seq<u8>, Seq<u8>)| e.contains(y) <==> d.to_set().insert(x).contains(y) by {
                if e.contains(y) {
                    let k = choose|k: int| 0 <= k < e.len() && e[k] == y;
                    if k < e.len() - 1 {
                        assert(d[k] == y);
                    }
                }
                if d.contains(y) {
                    let k = choose|k: int| 0 <= k < d.len() && d[k] == y;
                    assert(e[k] == y);
                }
                if y == x {
                    assert(e[e.len() - 1] == y);
                }
            }
        }
    }
}

/// No two entries with positions in `lo..hi` share a key.
pub open spec fn keys_distinct_in(e: Seq<(Seq<u8>, Seq<u8>)>, lo: int, hi: int) -> bool {
    forall|a: int, b: int|
        lo <= a < hi && lo <= b < hi && a != b ==> #[trigger] e[a].0 != #[trigger] e[b].0
}

/// Puts the entries in canonical order, or returns `None` when two of them
/// have the same key.
pub fn into_canonical_order(entries: Vec<(Vec<u8>, Vec<u8>)>) -> (r: Option<Vec<(Vec<u8>, Vec<u8>)>>)
    ensures
        match r {
            None => has_duplicate_keys(entries_view(entries@)),
            Some(sorted) => {
                &&& !has_duplicate_keys(entries_view(entries@))
                &&& entries_view(sorted@) == canonical_entries(entries_view(entries@))
                &&& keys_strictly_increasing(entries_view(sorted@))
                &&& entries_view(sorted@).to_set() == entries_view(entries@).to_set()
                &&& sorted@.len() == entries@.len()
            },
        },
{
    let ghost orig = entries_view(entries@);
    let ghost n = entries@.len() as int;
    let mut rest = entries;
    let mut sorted: Vec<(Vec<u8>, Vec<u8>)> = Vec::new();
    let ghost mut src: Seq<int> = Seq::empty();
    while rest.len() > 0
        invariant
            orig == entries_view(entries@),
            n == orig.len(),
            rest@.len() <= n,
            entries_view(rest@) == orig.take(rest@.len() as int),
            keys_strictly_increasing(entries_view(sorted@)),
            src.len() == sorted@.len(),
            sorted@.len() + rest@.len() == n,
            forall|j: int|
                0 <= j < sorted@.len() ==> rest@.len() <= #[trigger] src[j] < n
                    && entries_view(sorted@)[j] == orig[src[j]],
            forall|b: int| rest@.len() <= b < n ==> entries_view(sorted@).contains(#[trigger] orig[b]),
            keys_distinct_in(orig, rest@.len() as int, n),
        decreases rest@.len(),
    {
        let ghost old_sorted = entries_view(sorted@);
        let ghost old_rest = rest@;
        let e = rest.pop().unwrap();
        let ghost r = rest@.len() as int;
        proof {
            assert(entries_view(old_rest)[r] == orig[r]);
            assert(entry_view(e) == orig[r]);
            assert(entries_view(rest@) =~= orig.take(r));
        }
        let mut j: usize = 0;
        while j < sorted.len() && bytes_less_than(sorted[j].0.as_slice(), e.0.as_slice())
            invariant
                j <= sorted@.len(),
                old_sorted == entries_view(sorted@),
                forall|k: int| 0 <= k < j ==> bytes_lt(#[trigger] old_sorted[k].0, e.0@),
            decreases sorted@.len() - j,
        {
            j = j + 1;
        }
        if j < sorted.len() && !bytes_less_than(e.0.as_slice(), sorted[j].0.as_slice()) {
            proof {
                lemma_bytes_lt_total(old_sorted[j as int].0, e.0@);
                let b = src[j as int];
                assert(orig[b].0 == orig[r].0);
                assert(has_duplicate_keys(orig));
            }
            return None;
        }
        proof {
            // Every key already placed differs from the new one.
            assert forall|k: int| 0 <= k < old_sorted.len() implies #[trigger] old_sorted[k].0
                != e.0@ by {
                if k < j {
                    lemma_bytes_lt_irreflexive(e.0@);
                } else {
                    assert(bytes_lt(e.0@, old_sorted[j as int].0));
                    if k > j {
                        lemma_bytes_lt_transitive(e.0@, old_sorted[j as int].0, old_sorted[k].0);
                    }
                    lemma_bytes_lt_irreflexive(e.0@);
                }
            }
        }
        sorted.insert(j, e);
        proof {
            let sv = entries_view(sorted@);
            assert(sv =~= old_sorted.insert(j as int, orig[r]));
            src = src.insert(j as int, r);
            assert forall|a: int, b: int| 0 <= a < b < sv.len() implies bytes_lt(
                #[trigger] sv[a].0,
                #[trigger] sv[b].0,
            ) by {
                if a < j && b == j {
                } else if a < j && b > j {
                    assert(sv[b] == old_sorted[b - 1]);
                    assert(bytes_lt(e.0@, old_sorted[j as int].0));
                    if b - 1 > j {
                        lemma_bytes_lt_transitive(e.0@, old_sorted[j as int].0, old_sorted[b - 1].0);
                    }
                    lemma_bytes_lt_transitive(sv[a].0, e.0@, sv[b].0);
                } else if a == j {
                    assert(sv[b] == old_sorted[b - 1]);
                    assert(bytes_lt(e.0@, old_sorted[j as int].0));
                    if b - 1 > j {
                        lemma_bytes_lt_transitive(e.0@, old_sorted[j as int].0, old_sorted[b - 1].0);
                    }
                } else if a > j {
                    assert(sv[a] == old_sorted[a - 1]);
                    assert(sv[b] == old_sorted[b - 1]);
                }
            }
            assert forall|b: int| r <= b < n implies sv.contains(#[trigger] orig[b]) by {
                if b == r {
                    assert(sv[j as int] == orig[r]);
                } else {
                    assert(old_sorted.contains(orig[b]));
                    let k = choose|k: int| 0 <= k < old_sorted.len() && old_sorted[k] == orig[b];
                    if k < j {
                        assert(sv[k] == orig[b]);
                    } else {
                        assert(sv[k + 1] == orig[b]);
                    }
                }
            }
            assert forall|a: int, b: int| r <= a < n && r <= b < n && a != b implies #[trigger] orig[a].0
                != #[trigger] orig[b].0 by {
                if a == r || b == r {
                    let other = if a == r { b } else { a };
                    assert(old_sorted.contains(orig[other]));
                    let k = choose|k: int| 0 <= k < old_sorted.len() && old_sorted[k] == orig[other];
                    assert(old_sorted[k].0 != e.0@);
                }
            }
        }
    }
    proof {
        let sv = entries_view(sorted@);
        assert forall|x: (Seq<u8>, Seq<u8>)| sv.to_set().contains(x) <==> orig.to_set().contains(x) by {
            if sv.contains(x) {
                let k = choose|k: int| 0 <= k < sv.len() && sv[k] == x;
                assert(orig[src[k]] == x);
            }
            if orig.contains(x) {
                let b = choose|b: int| 0 <= b < orig.len() && orig[b] == x;
                assert(sv.contains(orig[b]));
            }
        }
        assert(sv.to_set() =~= orig.to_set());
        lemma_canonical_entries_of_sorted(sv, orig);
        assert(!has_duplicate_keys(orig)) by {
            if has_duplicate_keys(orig) {
                let (a, b) = choose|a: int, b: int|
                    0 <= a < orig.len() && 0 <= b < orig.len() && a != b && #[trigger] orig[a].0
                        == #[trigger] orig[b].0;
                assert(orig[a].0 != orig[b].0);
            }
        }
    }
    Some(sorted)
}

} // verus!
