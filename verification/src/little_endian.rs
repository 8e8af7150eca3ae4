//! Fixed width integers in BCS: little-endian, two's complement for the signed ones.

use vstd::prelude::*;

verus! {

/// `256` to the power `n`: the number of values that `n` bytes can hold.
pub open spec fn byte_range(n: nat) -> nat
    decreases n,
{
    if n == 0 {
        1
    } else {
        256 * byte_range((n - 1) as nat)
    }
}

/// The `n` least significant bytes of `v`, least significant first.
pub open spec fn le_bytes(v: nat, n: nat) -> Seq<u8>
    decreases n,
{
    if n == 0 {
        Seq::empty()
    } else {
        seq![(v % 256) as u8] + le_bytes(v / 256, (n - 1) as nat)
    }
}

/// The number that little-endian bytes stand for.
pub open spec fn le_value(bytes: Seq<u8>) -> nat
    decreases bytes.len(),
{
    if bytes.len() == 0 {
        0
    } else {
        (bytes[0] + 256 * le_value(bytes.drop_first())) as nat
    }
}

/// The unsigned number that stands for `v` in two's complement, where
/// `modulus` is two to the width of the type.
pub open spec fn twos_complement(v: int, modulus: nat) -> nat {
    if v >= 0 {
        v as nat
    } else {
        (v + modulus) as nat
    }
}

/// Little-endian encoding with `n` bytes has exactly `n` bytes.
pub proof fn lemma_le_bytes_len(v: nat, n: nat)
    ensures
        le_bytes(v, n).len() == n,
    decreases n,
{
    if n > 0 {
        lemma_le_bytes_len(v / 256, (n - 1) as nat);
    }
}

/// Reading back the `n` little-endian bytes of a number that fits in `n` bytes
/// gives the number.
pub proof fn lemma_le_roundtrip(v: nat, n: nat)
    requires
        v < byte_range(n),
    ensures
        le_value(le_bytes(v, n)) == v,
    decreases n,
{
    if n > 0 {
        let s = le_bytes(v, n);
        let m = (n - 1) as nat;
        assert(v / 256 < byte_range(m)) by (nonlinear_arith)
            requires
                v < 256 * byte_range(m),
        ;
        lemma_le_roundtrip(v / 256, m);
        assert(s.drop_first() =~= le_bytes(v / 256, m));
        assert(v == v % 256 + 256 * (v / 256)) by (nonlinear_arith);
    }
}

/// Widths in bytes of the fixed width integers.
pub proof fn lemma_byte_ranges()
    ensures
        byte_range(1) == 0x100,
        byte_range(2) == 0x1_0000,
        byte_range(4) == 0x1_0000_0000,
        byte_range(8) == 0x1_0000_0000_0000_0000,
        byte_range(16) == 0x1_0000_0000_0000_0000_0000_0000_0000_0000,
{
    reveal_with_fuel(byte_range, 17);
}


/// Reinterpreting a signed byte as unsigned gives its two's complement.
pub proof fn lemma_twos_complement_i8(v: i8)
    ensures
        (v as u8) as nat == twos_complement(v as int, 0x100),
{
    assert(v >= 0 ==> (v as u8) as int == v as int) by (bit_vector);
    assert(v < 0 ==> (v as u8) as int == v as int + 0x100) by (bit_vector);
}

/// Reinterpreting a signed 16-bit number as unsigned gives its two's complement.
pub proof fn lemma_twos_complement_i16(v: i16)
    ensures
        (v as u16) as nat == twos_complement(v as int, 0x1_0000),
{
    assert(v >= 0 ==> (v as u16) as int == v as int) by (bit_vector);
    assert(v < 0 ==> (v as u16) as int == v as int + 0x1_0000) by (bit_vector);
}

/// Reinterpreting a signed 32-bit number as unsigned gives its two's complement.
pub proof fn lemma_twos_complement_i32(v: i32)
    ensures
        (v as u32) as nat == twos_complement(v as int, 0x1_0000_0000),
{
    assert(v >= 0 ==> (v as u32) as int == v as int) by (bit_vector);
    assert(v < 0 ==> (v as u32) as int == v as int + 0x1_0000_0000) by (bit_vector);
}

/// Reinterpreting a signed 64-bit number as unsigned gives its two's complement.
pub proof fn lemma_twos_complement_i64(v: i64)
    ensures
        (v as u64) as nat == twos_complement(v as int, 0x1_0000_0000_0000_0000),
{
    assert(v >= 0 ==> (v as u64) as int == v as int) by (bit_vector);
    assert(v < 0 ==> (v as u64) as int == v as int + 0x1_0000_0000_0000_0000) by (bit_vector);
}

/// Reinterpreting a signed 128-bit number as unsigned gives its two's complement.
pub proof fn lemma_twos_complement_i128(v: i128)
    ensures
        (v as u128) as nat == twos_complement(v as int, 0x1_0000_0000_0000_0000_0000_0000_0000_0000nat),
{
    assert(v >= 0 ==> (v as u128) as int == v as int) by (bit_vector);
    assert(v < 0 ==> (v as u128) as int == v as int + 0x1_0000_0000_0000_0000_0000_0000_0000_0000int)
        by (bit_vector);
}

} // verus!
