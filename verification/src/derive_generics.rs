//! What the derive macros do to the generic parameters of a type, on a model of
//! the parameter list: which parameters get the marker bound, and how the
//! parameters of a `TBCSDeserialize<'de>` impl are laid out.

use vstd::prelude::*;

verus! {

/// The kind of one generic parameter of a type definition.
#[derive(Clone, Copy, Debug, PartialEq, Eq, Structural)]
pub enum ParamKind {
    /// A lifetime parameter, such as `'a`.
    Lifetime,
    /// A type parameter, such as `T`.
    Type,
    /// A const parameter, such as `const N: usize`.
    Const,
}

/// One parameter of a derived impl: a parameter of the type, by position, or the
/// lifetime `'de` of the input.
#[derive(Clone, Copy, Debug, PartialEq, Eq, Structural)]
pub enum PlannedParam {
    /// The parameter at this position in the type's list.
    Existing(usize),
    /// The lifetime `'de` of the bytes being deserialized.
    DeLifetime,
}

/// The positions, in order, of the parameters of the given kind.
pub open spec fn positions_of(kinds: Seq<ParamKind>, kind: ParamKind) -> Seq<usize>
    decreases kinds.len(),
{
    if kinds.len() == 0 {
        Seq::empty()
    } else {
        let before = positions_of(kinds.drop_last(), kind);
        if kinds.last() == kind {
            before.push((kinds.len() - 1) as usize)
        } else {
            before
        }
    }
}

/// The positions of the parameters of kind `kind` are exactly the indices of the
/// list whose parameter has that kind, each listed once, in increasing order.
pub proof fn lemma_positions_of_exact(kinds: Seq<ParamKind>, kind: ParamKind)
    requires
        kinds.len() <= usize::MAX,
    ensures
        forall|i: int|
            0 <= i < kinds.len() ==> (positions_of(kinds, kind).contains(i as usize) <==> #[trigger] kinds[i]
                == kind),
        forall|j: int|
            0 <= j < positions_of(kinds, kind).len() ==> #[trigger] positions_of(kinds, kind)[j]
                < kinds.len() && kinds[positions_of(kinds, kind)[j] as int] == kind,
        forall|a: int, b: int|
            0 <= a < b < positions_of(kinds, kind).len() ==> #[trigger] positions_of(kinds, kind)[a]
                < #[trigger] positions_of(kinds, kind)[b],
    decreases kinds.len(),
{
    if kinds.len() > 0 {
        let d = kinds.drop_last();
        lemma_positions_of_exact(d, kind);
        let p = positions_of(kinds, kind);
        let q = positions_of(d, kind);
        let n = kinds.len() - 1;
        if kinds.last() == kind {
            assert(p == q.push(n as usize));
        } else {
            assert(p == q);
        }
        assert forall|j: int| 0 <= j < q.len() implies q[j] < n && kinds[q[j] as int] == kind by {
            assert(d[q[j] as int] == kind);
        }
        assert forall|i: int| 0 <= i < kinds.len() implies (p.contains(i as usize) <==> #[trigger] kinds[i]
            == kind) by {
            if i < n {
                assert(kinds[i] == d[i]);
                if q.contains(i as usize) {
                    let j = choose|j: int| 0 <= j < q.len() && q[j] == i as usize;
                    assert(p[j] == i as usize);
                }
                if p.contains(i as usize) {
                    let j = choose|j: int| 0 <= j < p.len() && p[j] == i as usize;
                    if j < q.len() {
                        assert(q[j] == i as usize);
                    }
                }
            } else {
                if kinds[i] == kind {
                    assert(p[q.len() as int] == i as usize);
                }
                if p.contains(i as usize) {
                    let j = choose|j: int| 0 <= j < p.len() && p[j] == i as usize;
                    if j < q.len() {
                        assert(q[j] < n);
                    }
                }
            }
        }
        assert forall|j: int| 0 <= j < p.len() implies #[trigger] p[j] < kinds.len() && kinds[p[j] as int]
            == kind by {
            if j < q.len() {
                assert(p[j] == q[j]);
            }
        }
        assert forall|a: int, b: int| 0 <= a < b < p.len() implies #[trigger] p[a] < #[trigger] p[b] by {
            if b < q.len() {
                assert(p[a] == q[a] && p[b] == q[b]);
            } else {
                assert(p[a] == q[a]);
                assert(q[a] < n);
                assert(p[b] == n as usize);
            }
        }
    }
}

/// The parameters of a `TBCSDeserialize<'de>` impl: `'de`, then those of the type.
pub open spec fn deserialize_params(n: nat) -> Seq<PlannedParam> {
    seq![PlannedParam::DeLifetime] + Seq::new(n, |i: int| PlannedParam::Existing(i as usize))
}

/// The positions of the type parameters, to each of which the derive adds its
/// marker trait as a bound.
pub fn add_type_bound(kinds: &Vec<ParamKind>) -> (r: Vec<usize>)
    ensures
        r@ == positions_of(kinds@, ParamKind::Type),
        forall|i: int|
            0 <= i < kinds@.len() ==> (r@.contains(i as usize) <==> #[trigger] kinds@[i]
                == ParamKind::Type),
        forall|a: int, b: int| 0 <= a < b < r@.len() ==> #[trigger] r@[a] < #[trigger] r@[b],
{
    let n = kinds.len();
    proof {
        lemma_positions_of_exact(kinds@, ParamKind::Type);
    }
    positions(kinds, ParamKind::Type)
}

fn positions(kinds: &Vec<ParamKind>, kind: ParamKind) -> (r: Vec<usize>)
    ensures
        r@ == positions_of(kinds@, kind),
{
    let mut out: Vec<usize> = Vec::new();
    let mut i: usize = 0;
    while i < kinds.len()
        invariant
            i <= kinds@.len(),
            out@ == positions_of(kinds@.take(i as int), kind),
        decreases kinds@.len() - i,
    {
        assert(kinds@.take(i + 1).drop_last() =~= kinds@.take(i as int));
        if kinds[i] == kind {
            out.push(i);
        }
        i = i + 1;
    }
    assert(kinds@.take(i as int) =~= kinds@);
    out
}

/// The generic parameters of a `TBCSDeserialize<'de>` impl: `'de` first, then the
/// parameters of the type in their order; and, when the type has lifetimes, the
/// positions of the lifetimes that `'de` must outlive, each in a where clause.
pub fn deserialize_generics(kinds: &Vec<ParamKind>) -> (r: (Vec<PlannedParam>, Option<Vec<usize>>))
    ensures
        r.0@ == deserialize_params(kinds@.len()),
        positions_of(kinds@, ParamKind::Lifetime).len() == 0 ==> r.1 is None,
        positions_of(kinds@, ParamKind::Lifetime).len() > 0 ==> (r.1 matches Some(l) && l@
            == positions_of(kinds@, ParamKind::Lifetime)),
        // A where clause exactly when the type has a lifetime, naming each lifetime
        // once, in order.
        r.1 is None <==> forall|i: int| 0 <= i < kinds@.len() ==> kinds@[i] != ParamKind::Lifetime,
        r.1 matches Some(l) ==> forall|i: int|
            0 <= i < kinds@.len() ==> (l@.contains(i as usize) <==> #[trigger] kinds@[i]
                == ParamKind::Lifetime),
        r.1 matches Some(l) ==> forall|a: int, b: int|
            0 <= a < b < l@.len() ==> #[trigger] l@[a] < #[trigger] l@[b],
{
    let n = kinds.len();
    proof {
        lemma_positions_of_exact(kinds@, ParamKind::Lifetime);
        let p = positions_of(kinds@, ParamKind::Lifetime);
        if p.len() > 0 {
            assert(kinds@[p[0] as int] == ParamKind::Lifetime);
        }
        assert forall|i: int| 0 <= i < kinds@.len() && kinds@[i] == ParamKind::Lifetime implies p.len()
            > 0 by {
            assert(p.contains(i as usize));
        }
    }
    let existing_lifetimes = positions(kinds, ParamKind::Lifetime);
    let mut params: Vec<PlannedParam> = Vec::new();
    params.push(PlannedParam::DeLifetime);
    let mut i: usize = 0;
    while i < kinds.len()
        invariant
            i <= kinds@.len(),
            params@ == deserialize_params(i as nat),
        decreases kinds@.len() - i,
    {
        params.push(PlannedParam::Existing(i));
        i = i + 1;
        assert(params@ =~= deserialize_params(i as nat));
    }
    if existing_lifetimes.len() == 0 {
        (params, None)
    } else {
        (params, Some(existing_lifetimes))
    }
}

} // verus!
