//! What reading gives back of writing: for each kind of value, decoding its
//! encoding followed by any bytes gives the value back and leaves those bytes,
//! and every byte string that decodes is the encoding of what it decodes to.

use crate::de::{
    digit_weight, from_twos_complement, parse_bool, parse_bytes, parse_le, parse_length,
    parse_option_tag, parse_string, parse_uleb128, parse_uleb128_from,
};
use crate::error::Error;
use crate::little_endian::{
    byte_range, le_bytes, le_value, lemma_le_bytes_len, lemma_le_roundtrip, twos_complement,
};
use crate::uleb128::{lemma_uleb128_len, uleb128_bytes};
use crate::MAX_SEQUENCE_LENGTH;
use vstd::prelude::*;
use vstd::string::StringSliceAdditionalSpecFns;
use vstd::utf8::{encode_utf8, encode_utf8_valid_utf8};

verus! {

proof fn lemma_uleb128_parse_from(v: nat, rest: Seq<u8>, i: nat, acc: nat)
    requires
        acc < digit_weight(i),
        i > 0 ==> v > 0,
        acc + v * digit_weight(i) <= u32::MAX,
        uleb128_bytes(v).len() + i <= 5,
    ensures
        parse_uleb128_from(uleb128_bytes(v) + rest, i, acc) == Ok::<(u32, Seq<u8>), Error>(
            ((acc + v * digit_weight(i)) as u32, rest),
        ),
    decreases v,
{
    let s = uleb128_bytes(v) + rest;
    let w = digit_weight(i);
    if v < 128 {
        assert(s[0] == v);
        assert(s.drop_first() =~= rest);
        assert(v % 128 == v);
    } else {
        let d = v % 128;
        assert(s[0] == d + 128);
        assert(((d + 128) as u8) % 128 == d);
        assert(s.drop_first() =~= uleb128_bytes(v / 128) + rest);
        assert(digit_weight(i + 1) == 128 * w);
        assert(acc + d * w < digit_weight(i + 1)) by (nonlinear_arith)
            requires
                acc < w,
                d < 128,
                digit_weight(i + 1) == 128 * w,
        ;
        assert(acc + d * w + (v / 128) * digit_weight(i + 1) == acc + v * w) by (nonlinear_arith)
            requires
                digit_weight(i + 1) == 128 * w,
                d == v % 128,
        ;
        lemma_uleb128_parse_from(v / 128, rest, i + 1, (acc + d * w) as nat);
    }
}

/// Reading a ULEB128 number back from its encoding gives the number and leaves
/// what follows.
pub proof fn lemma_uleb128_decode_encode(v: u32, rest: Seq<u8>)
    ensures
        parse_uleb128(uleb128_bytes(v as nat) + rest) == Ok::<(u32, Seq<u8>), Error>((v, rest)),
{
    lemma_uleb128_len(v as nat);
    assert(digit_weight(0) == 1);
    lemma_uleb128_parse_from(v as nat, rest, 0, 0);
    assert(0 + (v as nat) * digit_weight(0) == v);
}

proof fn lemma_uleb128_parsed_is_canonical_from(s: Seq<u8>, i: nat, acc: nat)
    requires
        acc < digit_weight(i),
    ensures
        parse_uleb128_from(s, i, acc) matches Ok((v, rest)) ==> exists|w: nat|
            s == uleb128_bytes(w) + rest && v == acc + w * digit_weight(i) && (i > 0 ==> w > 0),
    decreases 5 - i,
{
    if i < 5 && s.len() > 0 {
        let byte = s[0];
        let d = (byte % 128) as nat;
        let w = digit_weight(i);
        let value = (acc + d * w) as nat;
        if let Ok((v, rest)) = parse_uleb128_from(s, i, acc) {
            if byte < 128 {
                assert(d == byte);
                assert(s =~= uleb128_bytes(d) + rest);
                assert(v == acc + d * w);
            } else {
                assert(digit_weight(i + 1) == 128 * w);
                assert(value < digit_weight(i + 1)) by (nonlinear_arith)
                    requires
                        acc < w,
                        d < 128,
                        value == acc + d * w,
                        digit_weight(i + 1) == 128 * w,
                ;
                lemma_uleb128_parsed_is_canonical_from(s.drop_first(), i + 1, value);
                let w2 = choose|w2: nat|
                    s.drop_first() == uleb128_bytes(w2) + rest && v == value + w2 * digit_weight(i + 1)
                        && w2 > 0;
                let n = d + 128 * w2;
                assert(n >= 128);
                assert(n % 128 == d && n / 128 == w2) by (nonlinear_arith)
                    requires
                        n == d + 128 * w2,
                        d < 128,
                ;
                assert(uleb128_bytes(n) == seq![((d + 128) as u8)] + uleb128_bytes(w2));
                assert(byte == d + 128);
                assert(s[0] == ((d + 128) as u8));
                assert(s =~= seq![s[0]] + s.drop_first());
                assert(s =~= uleb128_bytes(n) + rest);
                assert(v == acc + n * w) by (nonlinear_arith)
                    requires
                        v == value + w2 * digit_weight(i + 1),
                        value == acc + d * w,
                        digit_weight(i + 1) == 128 * w,
                        n == d + 128 * w2,
                ;
            }
        }
    }
}

/// The only byte strings read as a ULEB128 number are the encoding of that
/// number followed by the rest: padded or otherwise non-canonical forms are refused.
pub proof fn lemma_uleb128_decode_only_canonical(s: Seq<u8>)
    ensures
        parse_uleb128(s) matches Ok((v, rest)) ==> s == uleb128_bytes(v as nat) + rest,
{
    lemma_uleb128_parsed_is_canonical_from(s, 0, 0);
    if let Ok((v, rest)) = parse_uleb128(s) {
        let w = choose|w: nat| s == uleb128_bytes(w) + rest && v == 0 + w * digit_weight(0);
        assert(w == v);
    }
}

/// Reading a sequence length back from its encoding gives the length.
pub proof fn lemma_length_decode_encode(len: usize, rest: Seq<u8>)
    requires
        len <= MAX_SEQUENCE_LENGTH,
    ensures
        parse_length(uleb128_bytes(len as nat) + rest) == Ok::<(usize, Seq<u8>), Error>((len, rest)),
{
    lemma_uleb128_decode_encode(len as u32, rest);
}

/// Reading `n` little-endian bytes back gives the number that was written,
/// when it fits in `n` bytes.
pub proof fn lemma_le_decode_encode(v: nat, n: nat, rest: Seq<u8>)
    requires
        v < byte_range(n),
    ensures
        parse_le(le_bytes(v, n) + rest, n) == Ok::<(nat, Seq<u8>), Error>((v, rest)),
{
    lemma_le_bytes_len(v, n);
    lemma_le_roundtrip(v, n);
    let s = le_bytes(v, n) + rest;
    assert(s.take(n as int) =~= le_bytes(v, n));
    assert(s.skip(n as int) =~= rest);
}

proof fn lemma_le_bytes_of_value(t: Seq<u8>)
    ensures
        le_bytes(le_value(t), t.len()) == t,
    decreases t.len(),
{
    if t.len() > 0 {
        lemma_le_bytes_of_value(t.drop_first());
        let v = le_value(t);
        let r = le_value(t.drop_first());
        assert(v % 256 == t[0] && v / 256 == r) by (nonlinear_arith)
            requires
                v == t[0] + 256 * r,
                t[0] < 256,
        ;
        assert(le_bytes(v, t.len()) =~= seq![t[0]] + t.drop_first());
        assert(t =~= seq![t[0]] + t.drop_first());
    }
}

/// Every byte string read as an `n`-byte number is the encoding of that number
/// followed by the rest.
pub proof fn lemma_le_decode_only_canonical(s: Seq<u8>, n: nat)
    ensures
        parse_le(s, n) matches Ok((v, rest)) ==> s == le_bytes(v, n) + rest,
{
    if s.len() >= n {
        lemma_le_bytes_of_value(s.take(n as int));
        assert(s =~= s.take(n as int) + s.skip(n as int));
    }
}

/// Reading a signed number back from its two's complement gives the number,
/// for every number of the width.
pub proof fn lemma_twos_complement_roundtrip(v: int, modulus: nat)
    requires
        modulus % 2 == 0,
        -(modulus / 2) <= v < modulus / 2,
    ensures
        twos_complement(v, modulus) < modulus,
        from_twos_complement(twos_complement(v, modulus), modulus) == v,
{
}

/// Reading a boolean back from its byte gives the boolean.
pub proof fn lemma_bool_decode_encode(b: bool, rest: Seq<u8>)
    ensures
        parse_bool(seq![if b { 1u8 } else { 0u8 }] + rest) == Ok::<(bool, Seq<u8>), Error>((b, rest)),
{
    let s = seq![if b { 1u8 } else { 0u8 }] + rest;
    assert(s.drop_first() =~= rest);
}

/// Reading an option tag back from its byte gives whether the value is present.
pub proof fn lemma_option_tag_decode_encode(present: bool, rest: Seq<u8>)
    ensures
        parse_option_tag(seq![if present { 1u8 } else { 0u8 }] + rest) == Ok::<
            (bool, Seq<u8>),
            Error,
        >((present, rest)),
{
    let s = seq![if present { 1u8 } else { 0u8 }] + rest;
    assert(s.drop_first() =~= rest);
}

/// Reading a byte array back from its encoding gives the bytes.
pub proof fn lemma_bytes_decode_encode(bytes: Seq<u8>, rest: Seq<u8>)
    requires
        bytes.len() <= MAX_SEQUENCE_LENGTH,
    ensures
        parse_bytes(uleb128_bytes(bytes.len()) + bytes + rest) == Ok::<(Seq<u8>, Seq<u8>), Error>(
            (bytes, rest),
        ),
{
    let s = uleb128_bytes(bytes.len()) + bytes + rest;
    assert(s =~= uleb128_bytes(bytes.len() as usize as nat) + (bytes + rest));
    lemma_length_decode_encode(bytes.len() as usize, bytes + rest);
    assert((bytes + rest).take(bytes.len() as int) =~= bytes);
    assert((bytes + rest).skip(bytes.len() as int) =~= rest);
}

/// Reading a string back from its encoding gives its UTF-8 bytes.
pub proof fn lemma_string_decode_encode(s: &str, rest: Seq<u8>)
    requires
        s.spec_bytes().len() <= MAX_SEQUENCE_LENGTH,
    ensures
        parse_string(uleb128_bytes(s.spec_bytes().len()) + s.spec_bytes() + rest) == Ok::<
            (Seq<u8>, Seq<u8>),
            Error,
        >((s.spec_bytes(), rest)),
{
    lemma_bytes_decode_encode(s.spec_bytes(), rest);
    assert(s.spec_bytes() == encode_utf8(s@));
    encode_utf8_valid_utf8(s@);
}

/// The only byte strings read as a byte array are its length, then its bytes,
/// then the rest.
pub proof fn lemma_bytes_decode_only_canonical(s: Seq<u8>)
    ensures
        parse_bytes(s) matches Ok((b, rest)) ==> s == uleb128_bytes(b.len()) + b + rest,
{
    lemma_uleb128_decode_only_canonical(s);
    if let Ok((b, rest)) = parse_bytes(s) {
        let (len, after) = parse_length(s)->Ok_0;
        assert(s == uleb128_bytes(len as nat) + after);
        assert(after =~= b + rest);
        assert(b.len() == len);
    }
}

/// The only byte strings read as a boolean are its byte followed by the rest.
pub proof fn lemma_bool_decode_only_canonical(s: Seq<u8>)
    ensures
        parse_bool(s) matches Ok((b, rest)) ==> s == seq![if b { 1u8 } else { 0u8 }] + rest,
{
    if s.len() > 0 {
        assert(s =~= seq![s[0]] + s.drop_first());
    }
}

/// The only byte strings read as an option tag are its byte followed by the rest.
pub proof fn lemma_option_tag_decode_only_canonical(s: Seq<u8>)
    ensures
        parse_option_tag(s) matches Ok((present, rest)) ==> s == seq![
            if present { 1u8 } else { 0u8 },
        ] + rest,
{
    if s.len() > 0 {
        assert(s =~= seq![s[0]] + s.drop_first());
    }
}

} // verus!
