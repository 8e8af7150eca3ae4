//! Unsigned LEB128, the variable length integer format BCS uses for sequence
//! lengths and enum variant indices.

use vstd::prelude::*;

verus! {

/// The ULEB128 encoding of `v`: groups of seven bits, least significant
/// first, each byte but the last with its high bit set.
pub open spec fn uleb128_bytes(v: nat) -> Seq<u8>
    decreases v,
{
    if v < 128 {
        seq![v as u8]
    } else {
        seq![((v % 128) + 128) as u8] + uleb128_bytes(v / 128)
    }
}

/// The number that a sequence of ULEB128 bytes stands for (continuation bits ignored).
pub open spec fn uleb128_value(bytes: Seq<u8>) -> nat
    decreases bytes.len(),
{
    if bytes.len() == 0 {
        0
    } else {
        ((bytes[0] % 128) + 128 * uleb128_value(bytes.drop_first())) as nat
    }
}

/// A byte sequence is a well-formed, shortest ULEB128 number: every byte but the
/// last has its continuation bit set, the last has it clear, and the last is not
/// a redundant zero group.
pub open spec fn is_canonical_uleb128(bytes: Seq<u8>) -> bool {
    &&& bytes.len() >= 1
    &&& forall|i: int| 0 <= i < bytes.len() - 1 ==> #[trigger] bytes[i] >= 128
    &&& bytes.last() < 128
    &&& bytes.len() > 1 ==> bytes.last() != 0
}

/// Decoding the encoding of `v` gives back `v`.
pub proof fn lemma_uleb128_roundtrip(v: nat)
    ensures
        uleb128_value(uleb128_bytes(v)) == v,
    decreases v,
{
    let s = uleb128_bytes(v);
    if v >= 128 {
        lemma_uleb128_roundtrip(v / 128);
        assert(s.drop_first() =~= uleb128_bytes(v / 128));
        assert(s[0] == (v % 128) + 128);
        assert(((v % 128) + 128) % 128 == v % 128) by (nonlinear_arith);
        assert(v == v % 128 + 128 * (v / 128)) by (nonlinear_arith);
    } else {
        assert(s.drop_first() =~= Seq::<u8>::empty());
        assert(uleb128_value(s.drop_first()) == 0);
        assert(s[0] == v);
        assert(v % 128 == v) by (nonlinear_arith)
            requires
                v < 128,
        ;
    }
}

/// The encoding of every number is canonical.
pub proof fn lemma_uleb128_canonical(v: nat)
    ensures
        is_canonical_uleb128(uleb128_bytes(v)),
    decreases v,
{
    if v >= 128 {
        lemma_uleb128_canonical(v / 128);
        let rest = uleb128_bytes(v / 128);
        let s = uleb128_bytes(v);
        assert(s.last() == rest.last());
        assert forall|i: int| 0 <= i < s.len() - 1 implies #[trigger] s[i] >= 128 by {
            if i > 0 {
                assert(s[i] == rest[i - 1]);
            }
        }
        if rest.len() == 1 {
            assert(v / 128 >= 1);
            assert(rest.last() == (v / 128) as u8);
        }
    }
}

/// The encoding of a number below `128^k` takes at most `k` bytes; in particular
/// a 32-bit number takes between one and five bytes.
pub proof fn lemma_uleb128_len(v: nat)
    ensures
        uleb128_bytes(v).len() >= 1,
        v < 128 <==> uleb128_bytes(v).len() == 1,
        v < 0x4000 ==> uleb128_bytes(v).len() <= 2,
        v < 0x20_0000 ==> uleb128_bytes(v).len() <= 3,
        v < 0x1000_0000 ==> uleb128_bytes(v).len() <= 4,
        v < 0x8_0000_0000 ==> uleb128_bytes(v).len() <= 5,
    decreases v,
{
    if v >= 128 {
        lemma_uleb128_len(v / 128);
    }
}

/// Distinct numbers have distinct encodings.
pub proof fn lemma_uleb128_injective(a: nat, b: nat)
    requires
        uleb128_bytes(a) == uleb128_bytes(b),
    ensures
        a == b,
{
    lemma_uleb128_roundtrip(a);
    lemma_uleb128_roundtrip(b);
}

} // verus!
