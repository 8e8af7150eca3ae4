//! The lexicographic order on byte strings, by which BCS sorts map entries.

use vstd::prelude::*;

verus! {

/// `a` comes before `b` when both agree on the bytes before position `i`:
/// at the first position from `i` on where they differ the byte of `a` is
/// smaller, or `a` ends there while `b` goes on.
pub open spec fn lex_lt_from(a: Seq<u8>, b: Seq<u8>, i: int) -> bool
    decreases a.len() - i,
{
    if i >= a.len() {
        i < b.len()
    } else if i >= b.len() {
        false
    } else if a[i] != b[i] {
        a[i] < b[i]
    } else {
        lex_lt_from(a, b, i + 1)
    }
}

/// `a` comes strictly before `b` in lexicographic order.
pub open spec fn bytes_lt(a: Seq<u8>, b: Seq<u8>) -> bool {
    lex_lt_from(a, b, 0)
}

proof fn lemma_lex_irreflexive_from(a: Seq<u8>, i: int)
    requires
        0 <= i,
    ensures
        !lex_lt_from(a, a, i),
    decreases a.len() - i,
{
    if i < a.len() {
        lemma_lex_irreflexive_from(a, i + 1);
    }
}

proof fn lemma_lex_asymmetric_from(a: Seq<u8>, b: Seq<u8>, i: int)
    requires
        0 <= i,
        lex_lt_from(a, b, i),
    ensures
        !lex_lt_from(b, a, i),
    decreases a.len() - i,
{
    if i < a.len() && i < b.len() && a[i] == b[i] {
        lemma_lex_asymmetric_from(a, b, i + 1);
    }
}

proof fn lemma_lex_transitive_from(a: Seq<u8>, b: Seq<u8>, c: Seq<u8>, i: int)
    requires
        0 <= i,
        lex_lt_from(a, b, i),
        lex_lt_from(b, c, i),
    ensures
        lex_lt_from(a, c, i),
    decreases a.len() - i,
{
    if i < a.len() && i < b.len() && i < c.len() && a[i] == b[i] && b[i] == c[i] {
        lemma_lex_transitive_from(a, b, c, i + 1);
    }
}

proof fn lemma_lex_total_from(a: Seq<u8>, b: Seq<u8>, i: int)
    requires
        0 <= i <= a.len(),
        i <= b.len(),
    ensures
        lex_lt_from(a, b, i) || lex_lt_from(b, a, i) || (a.len() == b.len() && forall|j: int|
            i <= j < a.len() ==> a[j] == b[j]),
    decreases a.len() - i,
{
    if i < a.len() && i < b.len() && a[i] == b[i] {
        lemma_lex_total_from(a, b, i + 1);
    }
}

/// No byte string comes before itself.
pub proof fn lemma_bytes_lt_irreflexive(a: Seq<u8>)
    ensures
        !bytes_lt(a, a),
{
    lemma_lex_irreflexive_from(a, 0);
}

/// Of two byte strings at most one comes before the other.
pub proof fn lemma_bytes_lt_asymmetric(a: Seq<u8>, b: Seq<u8>)
    requires
        bytes_lt(a, b),
    ensures
        !bytes_lt(b, a),
{
    lemma_lex_asymmetric_from(a, b, 0);
}

/// The order is transitive.
pub proof fn lemma_bytes_lt_transitive(a: Seq<u8>, b: Seq<u8>, c: Seq<u8>)
    requires
        bytes_lt(a, b),
        bytes_lt(b, c),
    ensures
        bytes_lt(a, c),
{
    lemma_lex_transitive_from(a, b, c, 0);
}

/// Of two distinct byte strings one comes before the other.
pub proof fn lemma_bytes_lt_total(a: Seq<u8>, b: Seq<u8>)
    ensures
        bytes_lt(a, b) || bytes_lt(b, a) || a == b,
{
    lemma_lex_total_from(a, b, 0);
    if a.len() == b.len() && forall|j: int| 0 <= j < a.len() ==> a[j] == b[j] {
        assert(a =~= b);
    }
}

/// At position `j`, reached from `i` with equal bytes all the way, `a` and `b`
/// first differ in favour of `a`: its byte is the smaller number, or `a` ends
/// there while `b` goes on.
pub open spec fn first_difference_from(a: Seq<u8>, b: Seq<u8>, i: int, j: int) -> bool {
    &&& i <= j <= a.len()
    &&& j <= b.len()
    &&& forall|k: int| i <= k < j ==> a[k] == b[k]
    &&& ((j < a.len() && j < b.len() && (a[j] as nat) < (b[j] as nat)) || (j == a.len() && j
        < b.len()))
}

proof fn lemma_lex_from_first_difference(a: Seq<u8>, b: Seq<u8>, i: int)
    requires
        0 <= i <= a.len(),
        i <= b.len(),
    ensures
        lex_lt_from(a, b, i) <==> exists|j: int| #[trigger] first_difference_from(a, b, i, j),
    decreases a.len() - i,
{
    if i == a.len() {
        if i < b.len() {
            assert(first_difference_from(a, b, i, i));
        }
    } else if i == b.len() {
    } else if a[i] != b[i] {
        if a[i] < b[i] {
            assert(first_difference_from(a, b, i, i));
        }
    } else {
        lemma_lex_from_first_difference(a, b, i + 1);
        if lex_lt_from(a, b, i + 1) {
            let j = choose|j: int| #[trigger] first_difference_from(a, b, i + 1, j);
            assert(first_difference_from(a, b, i, j));
        }
        if exists|j: int| #[trigger] first_difference_from(a, b, i, j) {
            let j = choose|j: int| #[trigger] first_difference_from(a, b, i, j);
            if j == i {
                assert(a[i] == b[i]);
            }
            assert(first_difference_from(a, b, i + 1, j));
        }
    }
}

/// `a` comes before `b` exactly when, at the first position where they differ,
/// the byte of `a` is the smaller number (bytes compared as unsigned values
/// `0..=255`), or when `a` is a proper prefix of `b`.
pub proof fn lemma_bytes_lt_first_difference(a: Seq<u8>, b: Seq<u8>)
    ensures
        bytes_lt(a, b) <==> exists|j: int|
            0 <= j <= a.len() && j <= b.len() && #[trigger] a.take(j) == b.take(j) && ((j < a.len()
                && j < b.len() && (a[j] as nat) < (b[j] as nat)) || (j == a.len() && j < b.len())),
{
    lemma_lex_from_first_difference(a, b, 0);
    if bytes_lt(a, b) {
        let j = choose|j: int| #[trigger] first_difference_from(a, b, 0, j);
        assert(a.take(j) =~= b.take(j));
    }
    if exists|j: int|
        0 <= j <= a.len() && j <= b.len() && #[trigger] a.take(j) == b.take(j) && ((j < a.len() && j
            < b.len() && (a[j] as nat) < (b[j] as nat)) || (j == a.len() && j < b.len())) {
        let j = choose|j: int|
            0 <= j <= a.len() && j <= b.len() && #[trigger] a.take(j) == b.take(j) && ((j < a.len()
                && j < b.len() && (a[j] as nat) < (b[j] as nat)) || (j == a.len() && j < b.len()));
        assert forall|k: int| 0 <= k < j implies a[k] == b[k] by {
            assert(a.take(j)[k] == b.take(j)[k]);
        }
        assert(first_difference_from(a, b, 0, j));
    }
}

/// On single bytes the order is the numeric order of their unsigned values.
pub proof fn lemma_bytes_lt_single_byte(x: u8, y: u8)
    ensures
        bytes_lt(seq![x], seq![y]) <==> (x as nat) < (y as nat),
{
    let a = seq![x];
    let b = seq![y];
    assert(lex_lt_from(a, b, 1) == false);
}

/// The empty string comes before every other, and a proper prefix before the
/// string it begins.
pub proof fn lemma_bytes_lt_prefix(a: Seq<u8>, c: Seq<u8>)
    requires
        c.len() > 0,
    ensures
        bytes_lt(a, a + c),
        !bytes_lt(a + c, a),
{
    lemma_bytes_lt_first_difference(a, a + c);
    let j = a.len() as int;
    assert(a.take(j) =~= (a + c).take(j));
    lemma_bytes_lt_asymmetric(a, a + c);
}

/// Whether `a` comes strictly before `b` in lexicographic order.
pub fn bytes_less_than(a: &[u8], b: &[u8]) -> (r: bool)
    ensures
        r == bytes_lt(a@, b@),
{
    let mut i: usize = 0;
    while i < a.len() && i < b.len()
        invariant
            i <= a@.len(),
            i <= b@.len(),
            lex_lt_from(a@, b@, 0) == lex_lt_from(a@, b@, i as int),
        decreases a@.len() - i,
    {
        if a[i] != b[i] {
            return a[i] < b[i];
        }
        i = i + 1;
    }
    i == a.len() && i < b.len()
}

} // verus!
