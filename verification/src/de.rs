//! The BCS deserializer: how each kind of value of the serde data model is
//! read back, and which byte strings are refused.
//!
//! Each method reads the part of the encoding that belongs to one value and
//! leaves the rest of the input for the caller.

use crate::bytes_order::{bytes_less_than, bytes_lt};
use crate::error::Error;
use crate::little_endian::{byte_range, le_value};
use crate::{MAX_CONTAINER_DEPTH, MAX_SEQUENCE_LENGTH};
use vstd::prelude::*;
use vstd::string::StringSliceAdditionalSpecFns;
use vstd::utf8::valid_utf8;

verus! {

/// `128` to the power `i`: the weight of the `i`-th ULEB128 digit.
pub open spec fn digit_weight(i: nat) -> nat
    decreases i,
{
    if i == 0 {
        1
    } else {
        128 * digit_weight((i - 1) as nat)
    }
}

/// Reads a ULEB128 number of at most 32 bits from `input`, where `i` digits worth
/// `acc` have been read already. At most five digits are read; the last digit
/// may not be a redundant zero, and the number must fit in 32 bits.
pub open spec fn parse_uleb128_from(input: Seq<u8>, i: nat, acc: nat) -> Result<(u32, Seq<u8>), Error>
    decreases 5 - i,
{
    if i >= 5 {
        Err(Error::IntegerOverflowDuringUleb128Decoding)
    } else if input.len() == 0 {
        Err(Error::Eof)
    } else {
        let byte = input[0];
        let digit = byte % 128;
        let value: nat = (acc + digit * digit_weight(i)) as nat;
        if byte < 128 {
            if i > 0 && digit == 0 {
                Err(Error::NonCanonicalUleb128Encoding)
            } else if value > u32::MAX {
                Err(Error::IntegerOverflowDuringUleb128Decoding)
            } else {
                Ok((value as u32, input.drop_first()))
            }
        } else {
            parse_uleb128_from(input.drop_first(), i + 1, value)
        }
    }
}

/// Reads a ULEB128 number of at most 32 bits at the start of `input`; returns it
/// and what follows it.
pub open spec fn parse_uleb128(input: Seq<u8>) -> Result<(u32, Seq<u8>), Error> {
    parse_uleb128_from(input, 0, 0)
}

/// Reads a sequence length: a ULEB128 number no greater than `MAX_SEQUENCE_LENGTH`.
pub open spec fn parse_length(input: Seq<u8>) -> Result<(usize, Seq<u8>), Error> {
    match parse_uleb128(input) {
        Ok((len, rest)) => if len > MAX_SEQUENCE_LENGTH {
            Err(Error::ExceededMaxLen(len as usize))
        } else {
            Ok((len as usize, rest))
        },
        Err(e) => Err(e),
    }
}

/// Reads `n` bytes as a little-endian number.
pub open spec fn parse_le(input: Seq<u8>, n: nat) -> Result<(nat, Seq<u8>), Error> {
    if input.len() < n {
        Err(Error::Eof)
    } else {
        Ok((le_value(input.take(n as int)), input.skip(n as int)))
    }
}

/// Reads a byte array: its length, then that many bytes.
pub open spec fn parse_bytes(input: Seq<u8>) -> Result<(Seq<u8>, Seq<u8>), Error> {
    match parse_length(input) {
        Ok((len, rest)) => if len > rest.len() {
            Err(Error::Eof)
        } else {
            Ok((rest.take(len as int), rest.skip(len as int)))
        },
        Err(e) => Err(e),
    }
}

/// Reads a string: a byte array that must be valid UTF-8.
pub open spec fn parse_string(input: Seq<u8>) -> Result<(Seq<u8>, Seq<u8>), Error> {
    match parse_bytes(input) {
        Ok((bytes, rest)) => if valid_utf8(bytes) {
            Ok((bytes, rest))
        } else {
            Err(Error::Utf8)
        },
        Err(e) => Err(e),
    }
}

/// Reads a boolean: the byte `0` or `1`.
pub open spec fn parse_bool(input: Seq<u8>) -> Result<(bool, Seq<u8>), Error> {
    if input.len() == 0 {
        Err(Error::Eof)
    } else if input[0] == 0 {
        Ok((false, input.drop_first()))
    } else if input[0] == 1 {
        Ok((true, input.drop_first()))
    } else {
        Err(Error::ExpectedBoolean)
    }
}

/// Reads the tag of an optional value: `0` for absent, `1` for present.
pub open spec fn parse_option_tag(input: Seq<u8>) -> Result<(bool, Seq<u8>), Error> {
    if input.len() == 0 {
        Err(Error::Eof)
    } else if input[0] == 0 {
        Ok((false, input.drop_first()))
    } else if input[0] == 1 {
        Ok((true, input.drop_first()))
    } else {
        Err(Error::ExpectedOption)
    }
}

/// The signed number whose two's complement is `u`, where `modulus` is two to
/// the width of the type.
pub open spec fn from_twos_complement(u: nat, modulus: nat) -> int {
    if u < modulus / 2 {
        u as int
    } else {
        u - modulus
    }
}

/// The little-endian value of `n` bytes is below `256^n`.
pub proof fn lemma_le_value_bound(s: Seq<u8>)
    ensures
        le_value(s) < byte_range(s.len()),
    decreases s.len(),
{
    if s.len() > 0 {
        lemma_le_value_bound(s.drop_first());
        let m = (s.len() - 1) as nat;
        assert(s.drop_first().len() == m);
        assert(s[0] + 256 * le_value(s.drop_first()) < 256 * byte_range(m)) by (nonlinear_arith)
            requires
                s[0] < 256,
                le_value(s.drop_first()) < byte_range(m),
        ;
    }
}

/// `std::str::from_utf8`: its documentation says that it returns the string
/// slice when the bytes are valid UTF-8 and an error otherwise; here validity is
/// the UTF-8 well-formedness that vstd defines.
#[verifier::external_body]
fn str_from_utf8(bytes: &[u8]) -> (r: Option<&str>)
    ensures
        match r {
            Some(s) => valid_utf8(bytes@) && s.spec_bytes() == bytes@,
            None => !valid_utf8(bytes@),
        },
{
    std::str::from_utf8(bytes).ok()
}

/// Reads BCS bytes and keeps count of how many more containers may be entered.
pub struct Deserializer<'a> {
    input: &'a [u8],
    max_remaining_depth: usize,
}

impl<'a> Deserializer<'a> {
    /// The bytes not read yet.
    pub closed spec fn remaining(&self) -> Seq<u8> {
        self.input@
    }

    /// How many more named containers may be entered.
    pub closed spec fn remaining_depth(&self) -> usize {
        self.max_remaining_depth
    }

    /// A deserializer that reads `input` and may enter `max_remaining_depth` nested containers.
    pub fn new(input: &'a [u8], max_remaining_depth: usize) -> (d: Self)
        ensures
            d.remaining() == input@,
            d.remaining_depth() == max_remaining_depth,
    {
        Deserializer { input, max_remaining_depth }
    }

    /// A deserializer with a custom depth limit, which may not exceed `MAX_CONTAINER_DEPTH`.
    pub fn with_limit(input: &'a [u8], limit: usize) -> (r: Result<Self, Error>)
        ensures
            match r {
                Ok(d) => limit <= MAX_CONTAINER_DEPTH && d.remaining() == input@
                    && d.remaining_depth() == limit,
                Err(e) => limit > MAX_CONTAINER_DEPTH && e == Error::NotSupported(
                    "limit exceeds the max allowed depth 500",
                ),
            },
    {
        if limit > MAX_CONTAINER_DEPTH {
            return Err(Error::NotSupported("limit exceeds the max allowed depth 500"));
        }
        Ok(Self::new(input, limit))
    }

    /// The bytes not read yet.
    pub fn remaining_input(&self) -> (r: &'a [u8])
        ensures
            r@ == self.remaining(),
    {
        self.input
    }

    /// How many more named containers may be entered.
    pub fn max_remaining_depth(&self) -> (r: usize)
        ensures
            r == self.remaining_depth(),
    {
        self.max_remaining_depth
    }

    /// Succeeds when the whole input has been read.
    pub fn end(&self) -> (r: Result<(), Error>)
        ensures
            r is Ok <==> self.remaining().len() == 0,
            r is Err ==> r == Err::<(), Error>(Error::RemainingInput),
    {
        if self.input.len() == 0 {
            Ok(())
        } else {
            Err(Error::RemainingInput)
        }
    }

    /// The next byte, without reading it.
    pub fn peek(&self) -> (r: Result<u8, Error>)
        ensures
            match r {
                Ok(b) => self.remaining().len() > 0 && b == self.remaining()[0],
                Err(e) => self.remaining().len() == 0 && e == Error::Eof,
            },
    {
        if self.input.len() == 0 {
            return Err(Error::Eof);
        }
        Ok(self.input[0])
    }

    /// Reads one byte.
    pub fn next(&mut self) -> (r: Result<u8, Error>)
        ensures
            final(self).remaining_depth() == old(self).remaining_depth(),
            match r {
                Ok(b) => old(self).remaining().len() > 0 && b == old(self).remaining()[0]
                    && final(self).remaining() == old(self).remaining().drop_first(),
                Err(e) => old(self).remaining().len() == 0 && e == Error::Eof && final(self).remaining()
                    == old(self).remaining(),
            },
    {
        let byte = self.peek()?;
        let (_, rest) = self.input.split_at(1);
        self.input = rest;
        assert(rest@ =~= old(self).input@.drop_first());
        Ok(byte)
    }

    /// Reads `n` bytes as a little-endian number.
    fn parse_le(&mut self, n: usize) -> (r: Result<u128, Error>)
        requires
            n <= 16,
        ensures
            final(self).remaining_depth() == old(self).remaining_depth(),
            match r {
                Ok(v) => parse_le(old(self).remaining(), n as nat) == Ok::<(nat, Seq<u8>), Error>(
                    (v as nat, final(self).remaining()),
                ) && v < byte_range(n as nat),
                Err(e) => parse_le(old(self).remaining(), n as nat) == Err::<(nat, Seq<u8>), Error>(e),
            },
    {
        if self.input.len() < n {
            return Err(Error::Eof);
        }
        let (head, rest) = self.input.split_at(n);
        let mut acc: u128 = 0;
        let mut i: usize = n;
        proof {
            assert(head@.subrange(n as int, n as int) =~= Seq::<u8>::empty());
            crate::little_endian::lemma_byte_ranges();
        }
        while i > 0
            invariant
                i <= n <= 16,
                head@.len() == n,
                acc as nat == le_value(head@.subrange(i as int, n as int)),
                byte_range(16) == 0x1_0000_0000_0000_0000_0000_0000_0000_0000,
            decreases i,
        {
            let ghost tail = head@.subrange(i as int, n as int);
            let ghost next = head@.subrange(i - 1, n as int);
            proof {
                assert(next.drop_first() =~= tail);
                lemma_le_value_bound(tail);
                lemma_byte_range_monotone(tail.len(), 15);
                assert(acc * 256 + head@[i - 1] < 0x1_0000_0000_0000_0000_0000_0000_0000_0000) by (
                nonlinear_arith)
                    requires
                        acc < byte_range(15),
                        byte_range(16) == 256 * byte_range(15),
                        byte_range(16) == 0x1_0000_0000_0000_0000_0000_0000_0000_0000,
                        head@[i - 1] < 256,
                ;
            }
            acc = acc * 256 + head[i - 1] as u128;
            i = i - 1;
        }
        self.input = rest;
        assert(head@.subrange(0, n as int) =~= head@);
        assert(head@ =~= old(self).input@.take(n as int));
        assert(rest@ =~= old(self).input@.skip(n as int));
        proof {
            lemma_le_value_bound(head@);
        }
        Ok(acc)
    }
}

/// `x` read as a signed byte is the number whose two's complement it is.
proof fn lemma_from_twos_complement_u8(x: u8)
    ensures
        (x as i8) as int == from_twos_complement(x as nat, 0x100),
{
    assert(x < 0x80 ==> (x as i8) as int == x as int) by (bit_vector);
    assert(x >= 0x80 ==> (x as i8) as int == x as int - 0x100) by (bit_vector);
}

/// `x` read as a signed 16-bit number is the number whose two's complement it is.
proof fn lemma_from_twos_complement_u16(x: u16)
    ensures
        (x as i16) as int == from_twos_complement(x as nat, 0x1_0000),
{
    assert(x < 0x8000 ==> (x as i16) as int == x as int) by (bit_vector);
    assert(x >= 0x8000 ==> (x as i16) as int == x as int - 0x1_0000) by (bit_vector);
}

/// `x` read as a signed 32-bit number is the number whose two's complement it is.
proof fn lemma_from_twos_complement_u32(x: u32)
    ensures
        (x as i32) as int == from_twos_complement(x as nat, 0x1_0000_0000),
{
    assert(x < 0x8000_0000 ==> (x as i32) as int == x as int) by (bit_vector);
    assert(x >= 0x8000_0000 ==> (x as i32) as int == x as int - 0x1_0000_0000) by (bit_vector);
}

/// `x` read as a signed 64-bit number is the number whose two's complement it is.
proof fn lemma_from_twos_complement_u64(x: u64)
    ensures
        (x as i64) as int == from_twos_complement(x as nat, 0x1_0000_0000_0000_0000),
{
    assert(x < 0x8000_0000_0000_0000 ==> (x as i64) as int == x as int) by (bit_vector);
    assert(x >= 0x8000_0000_0000_0000 ==> (x as i64) as int == x as int - 0x1_0000_0000_0000_0000)
        by (bit_vector);
}

/// `x` read as a signed 128-bit number is the number whose two's complement it is.
proof fn lemma_from_twos_complement_u128(x: u128)
    ensures
        (x as i128) as int == from_twos_complement(
            x as nat,
            0x1_0000_0000_0000_0000_0000_0000_0000_0000nat,
        ),
{
    assert(x < 0x8000_0000_0000_0000_0000_0000_0000_0000 ==> (x as i128) as int == x as int)
        by (bit_vector);
    assert(x >= 0x8000_0000_0000_0000_0000_0000_0000_0000 ==> (x as i128) as int == x as int
        - 0x1_0000_0000_0000_0000_0000_0000_0000_0000int) by (bit_vector);
}

impl<'a> Deserializer<'a> {
    /// Reads a boolean: the byte `0` or `1`.
    pub fn parse_bool(&mut self) -> (r: Result<bool, Error>)
        ensures
            final(self).remaining_depth() == old(self).remaining_depth(),
            match r {
                Ok(b) => parse_bool(old(self).remaining()) == Ok::<(bool, Seq<u8>), Error>(
                    (b, final(self).remaining()),
                ),
                Err(e) => parse_bool(old(self).remaining()) == Err::<(bool, Seq<u8>), Error>(e),
            },
    {
        match self.next()? {
            0 => Ok(false),
            1 => Ok(true),
            _ => Err(Error::ExpectedBoolean),
        }
    }

    /// Reads the tag of an optional value: `false` for absent, `true` for present.
    pub fn parse_option_tag(&mut self) -> (r: Result<bool, Error>)
        ensures
            final(self).remaining_depth() == old(self).remaining_depth(),
            match r {
                Ok(b) => parse_option_tag(old(self).remaining()) == Ok::<(bool, Seq<u8>), Error>(
                    (b, final(self).remaining()),
                ),
                Err(e) => parse_option_tag(old(self).remaining()) == Err::<(bool, Seq<u8>), Error>(e),
            },
    {
        match self.next()? {
            0 => Ok(false),
            1 => Ok(true),
            _ => Err(Error::ExpectedOption),
        }
    }

    /// Reads an unsigned byte.
    pub fn parse_u8(&mut self) -> (r: Result<u8, Error>)
        ensures
            final(self).remaining_depth() == old(self).remaining_depth(),
            match r {
                Ok(v) => parse_le(old(self).remaining(), 1) == Ok::<(nat, Seq<u8>), Error>(
                    (v as nat, final(self).remaining()),
                ),
                Err(e) => parse_le(old(self).remaining(), 1) == Err::<(nat, Seq<u8>), Error>(e),
            },
    {
        proof {
            crate::little_endian::lemma_byte_ranges();
        }
        let v = self.parse_le(1)?;
        Ok(v as u8)
    }

    /// Reads two bytes, least significant first.
    pub fn parse_u16(&mut self) -> (r: Result<u16, Error>)
        ensures
            final(self).remaining_depth() == old(self).remaining_depth(),
            match r {
                Ok(v) => parse_le(old(self).remaining(), 2) == Ok::<(nat, Seq<u8>), Error>(
                    (v as nat, final(self).remaining()),
                ),
                Err(e) => parse_le(old(self).remaining(), 2) == Err::<(nat, Seq<u8>), Error>(e),
            },
    {
        proof {
            crate::little_endian::lemma_byte_ranges();
        }
        let v = self.parse_le(2)?;
        Ok(v as u16)
    }

    /// Reads four bytes, least significant first.
    pub fn parse_u32(&mut self) -> (r: Result<u32, Error>)
        ensures
            final(self).remaining_depth() == old(self).remaining_depth(),
            match r {
                Ok(v) => parse_le(old(self).remaining(), 4) == Ok::<(nat, Seq<u8>), Error>(
                    (v as nat, final(self).remaining()),
                ),
                Err(e) => parse_le(old(self).remaining(), 4) == Err::<(nat, Seq<u8>), Error>(e),
            },
    {
        proof {
            crate::little_endian::lemma_byte_ranges();
        }
        let v = self.parse_le(4)?;
        Ok(v as u32)
    }

    /// Reads eight bytes, least significant first.
    pub fn parse_u64(&mut self) -> (r: Result<u64, Error>)
        ensures
            final(self).remaining_depth() == old(self).remaining_depth(),
            match r {
                Ok(v) => parse_le(old(self).remaining(), 8) == Ok::<(nat, Seq<u8>), Error>(
                    (v as nat, final(self).remaining()),
                ),
                Err(e) => parse_le(old(self).remaining(), 8) == Err::<(nat, Seq<u8>), Error>(e),
            },
    {
        proof {
            crate::little_endian::lemma_byte_ranges();
        }
        let v = self.parse_le(8)?;
        Ok(v as u64)
    }

    /// Reads sixteen bytes, least significant first.
    pub fn parse_u128(&mut self) -> (r: Result<u128, Error>)
        ensures
            final(self).remaining_depth() == old(self).remaining_depth(),
            match r {
                Ok(v) => parse_le(old(self).remaining(), 16) == Ok::<(nat, Seq<u8>), Error>(
                    (v as nat, final(self).remaining()),
                ),
                Err(e) => parse_le(old(self).remaining(), 16) == Err::<(nat, Seq<u8>), Error>(e),
            },
    {
        self.parse_le(16)
    }

    /// Reads a signed byte in two's complement.
    pub fn parse_i8(&mut self) -> (r: Result<i8, Error>)
        ensures
            final(self).remaining_depth() == old(self).remaining_depth(),
            match r {
                Ok(v) => exists|u: nat|
                    parse_le(old(self).remaining(), 1) == Ok::<(nat, Seq<u8>), Error>(
                        (u, final(self).remaining()),
                    ) && v as int == #[trigger] from_twos_complement(u, 0x100),
                Err(e) => parse_le(old(self).remaining(), 1) == Err::<(nat, Seq<u8>), Error>(e),
            },
    {
        let u = self.parse_u8()?;
        proof {
            lemma_from_twos_complement_u8(u);
        }
        Ok(u as i8)
    }

    /// Reads two bytes of two's complement, least significant first.
    pub fn parse_i16(&mut self) -> (r: Result<i16, Error>)
        ensures
            final(self).remaining_depth() == old(self).remaining_depth(),
            match r {
                Ok(v) => exists|u: nat|
                    parse_le(old(self).remaining(), 2) == Ok::<(nat, Seq<u8>), Error>(
                        (u, final(self).remaining()),
                    ) && v as int == #[trigger] from_twos_complement(u, 0x1_0000),
                Err(e) => parse_le(old(self).remaining(), 2) == Err::<(nat, Seq<u8>), Error>(e),
            },
    {
        let u = self.parse_u16()?;
        proof {
            lemma_from_twos_complement_u16(u);
        }
        Ok(u as i16)
    }

    /// Reads four bytes of two's complement, least significant first.
    pub fn parse_i32(&mut self) -> (r: Result<i32, Error>)
        ensures
            final(self).remaining_depth() == old(self).remaining_depth(),
            match r {
                Ok(v) => exists|u: nat|
                    parse_le(old(self).remaining(), 4) == Ok::<(nat, Seq<u8>), Error>(
                        (u, final(self).remaining()),
                    ) && v as int == #[trigger] from_twos_complement(u, 0x1_0000_0000),
                Err(e) => parse_le(old(self).remaining(), 4) == Err::<(nat, Seq<u8>), Error>(e),
            },
    {
        let u = self.parse_u32()?;
        proof {
            lemma_from_twos_complement_u32(u);
        }
        Ok(u as i32)
    }

    /// Reads eight bytes of two's complement, least significant first.
    pub fn parse_i64(&mut self) -> (r: Result<i64, Error>)
        ensures
            final(self).remaining_depth() == old(self).remaining_depth(),
            match r {
                Ok(v) => exists|u: nat|
                    parse_le(old(self).remaining(), 8) == Ok::<(nat, Seq<u8>), Error>(
                        (u, final(self).remaining()),
                    ) && v as int == #[trigger] from_twos_complement(u, 0x1_0000_0000_0000_0000),
                Err(e) => parse_le(old(self).remaining(), 8) == Err::<(nat, Seq<u8>), Error>(e),
            },
    {
        let u = self.parse_u64()?;
        proof {
            lemma_from_twos_complement_u64(u);
        }
        Ok(u as i64)
    }

    /// Reads sixteen bytes of two's complement, least significant first.
    pub fn parse_i128(&mut self) -> (r: Result<i128, Error>)
        ensures
            final(self).remaining_depth() == old(self).remaining_depth(),
            match r {
                Ok(v) => exists|u: nat|
                    parse_le(old(self).remaining(), 16) == Ok::<(nat, Seq<u8>), Error>(
                        (u, final(self).remaining()),
                    ) && v as int == #[trigger] from_twos_complement(
                        u,
                        0x1_0000_0000_0000_0000_0000_0000_0000_0000nat,
                    ),
                Err(e) => parse_le(old(self).remaining(), 16) == Err::<(nat, Seq<u8>), Error>(e),
            },
    {
        let u = self.parse_u128()?;
        proof {
            lemma_from_twos_complement_u128(u);
        }
        Ok(u as i128)
    }
}

impl<'a> Deserializer<'a> {
    /// Reads a ULEB128 number of at most 32 bits: enum variant indices and
    /// sequence lengths. Only the shortest encoding of each number is accepted.
    pub fn parse_u32_from_uleb128(&mut self) -> (r: Result<u32, Error>)
        ensures
            final(self).remaining_depth() == old(self).remaining_depth(),
            match r {
                Ok(v) => parse_uleb128(old(self).remaining()) == Ok::<(u32, Seq<u8>), Error>(
                    (v, final(self).remaining()),
                ),
                Err(e) => parse_uleb128(old(self).remaining()) == Err::<(u32, Seq<u8>), Error>(e),
            },
    {
        let mut value: u64 = 0;
        let mut weight: u64 = 1;
        let mut i: usize = 0;
        proof {
            reveal_with_fuel(digit_weight, 6);
        }
        while i < 5
            invariant
                i <= 5,
                weight == digit_weight(i as nat),
                value < weight,
                digit_weight(5) == 0x8_0000_0000,
                self.remaining_depth() == old(self).remaining_depth(),
                parse_uleb128(old(self).remaining()) == parse_uleb128_from(
                    self.remaining(),
                    i as nat,
                    value as nat,
                ),
            decreases 5 - i,
        {
            proof {
                lemma_digit_weight_monotone((i + 1) as nat, 5);
            }
            let byte = self.next()?;
            let digit = byte & 0x7f;
            assert(digit == byte % 128) by (bit_vector)
                requires
                    digit == byte & 0x7f,
            ;
            assert((digit == byte) == (byte < 128)) by (bit_vector)
                requires
                    digit == byte & 0x7f,
            ;
            assert(value + digit * weight < 128 * weight) by (nonlinear_arith)
                requires
                    value < weight,
                    digit < 128,
            ;
            value = value + (digit as u64) * weight;
            if digit == byte {
                if i > 0 && digit == 0 {
                    return Err(Error::NonCanonicalUleb128Encoding);
                }
                if value > 0xffff_ffff {
                    return Err(Error::IntegerOverflowDuringUleb128Decoding);
                }
                return Ok(value as u32);
            }
            weight = weight * 128;
            i = i + 1;
        }
        Err(Error::IntegerOverflowDuringUleb128Decoding)
    }

    /// Reads a variant index.
    pub fn parse_variant_index(&mut self) -> (r: Result<u32, Error>)
        ensures
            final(self).remaining_depth() == old(self).remaining_depth(),
            match r {
                Ok(v) => parse_uleb128(old(self).remaining()) == Ok::<(u32, Seq<u8>), Error>(
                    (v, final(self).remaining()),
                ),
                Err(e) => parse_uleb128(old(self).remaining()) == Err::<(u32, Seq<u8>), Error>(e),
            },
    {
        self.parse_u32_from_uleb128()
    }

    /// Reads the length of a sequence, which may not exceed `MAX_SEQUENCE_LENGTH`.
    pub fn parse_length(&mut self) -> (r: Result<usize, Error>)
        ensures
            final(self).remaining_depth() == old(self).remaining_depth(),
            match r {
                Ok(len) => parse_length(old(self).remaining()) == Ok::<(usize, Seq<u8>), Error>(
                    (len, final(self).remaining()),
                ),
                Err(e) => parse_length(old(self).remaining()) == Err::<(usize, Seq<u8>), Error>(e),
            },
    {
        let len = self.parse_u32_from_uleb128()? as usize;
        if len > MAX_SEQUENCE_LENGTH {
            return Err(Error::ExceededMaxLen(len));
        }
        Ok(len)
    }

    /// Reads a byte array. A length longer than the rest of the input fails at
    /// once, before anything is allocated for it.
    pub fn parse_bytes(&mut self) -> (r: Result<&'a [u8], Error>)
        ensures
            final(self).remaining_depth() == old(self).remaining_depth(),
            match r {
                Ok(b) => parse_bytes(old(self).remaining()) == Ok::<(Seq<u8>, Seq<u8>), Error>(
                    (b@, final(self).remaining()),
                ),
                Err(e) => parse_bytes(old(self).remaining()) == Err::<(Seq<u8>, Seq<u8>), Error>(e),
            },
    {
        let len = self.parse_length()?;
        if len > self.input.len() {
            return Err(Error::Eof);
        }
        let (bytes, rest) = self.input.split_at(len);
        self.input = rest;
        Ok(bytes)
    }

    /// Reads a string: a byte array that must be valid UTF-8.
    pub fn parse_string(&mut self) -> (r: Result<&'a str, Error>)
        ensures
            final(self).remaining_depth() == old(self).remaining_depth(),
            match r {
                Ok(s) => parse_string(old(self).remaining()) == Ok::<(Seq<u8>, Seq<u8>), Error>(
                    (s.spec_bytes(), final(self).remaining()),
                ),
                Err(e) => parse_string(old(self).remaining()) == Err::<(Seq<u8>, Seq<u8>), Error>(e),
            },
    {
        let bytes = self.parse_bytes()?;
        match str_from_utf8(bytes) {
            Some(s) => Ok(s),
            None => Err(Error::Utf8),
        }
    }

    /// Enters the named container, which takes one level of the remaining depth.
    pub fn enter_named_container(&mut self, name: &'static str) -> (r: Result<(), Error>)
        ensures
            final(self).remaining() == old(self).remaining(),
            match r {
                Ok(()) => old(self).remaining_depth() > 0 && final(self).remaining_depth() == old(
                    self,
                ).remaining_depth() - 1,
                Err(e) => old(self).remaining_depth() == 0 && e == Error::ExceededContainerDepthLimit(
                    name,
                ) && final(self).remaining_depth() == 0,
            },
    {
        if self.max_remaining_depth == 0 {
            return Err(Error::ExceededContainerDepthLimit(name));
        }
        self.max_remaining_depth = self.max_remaining_depth - 1;
        Ok(())
    }

    /// Leaves a container, giving back the level it took.
    pub fn leave_named_container(&mut self)
        requires
            old(self).remaining_depth() < usize::MAX,
        ensures
            final(self).remaining() == old(self).remaining(),
            final(self).remaining_depth() == old(self).remaining_depth() + 1,
    {
        self.max_remaining_depth = self.max_remaining_depth + 1;
    }
}

/// Keeps track of the entries of a map being read: how many are left, and the
/// serialized key of the last one, which the next key must come after.
pub struct MapKeyTracker<'a> {
    remaining: usize,
    previous_key_bytes: Option<&'a [u8]>,
}

impl<'a> MapKeyTracker<'a> {
    /// The number of entries not read yet.
    pub closed spec fn entries_left(&self) -> usize {
        self.remaining
    }

    /// The serialized key of the last entry read.
    pub closed spec fn previous_key(&self) -> Option<Seq<u8>> {
        match self.previous_key_bytes {
            Some(k) => Some(k@),
            None => None,
        }
    }

    /// A tracker for a map of `len` entries.
    pub fn new(len: usize) -> (t: Self)
        ensures
            t.entries_left() == len,
            t.previous_key() is None,
    {
        MapKeyTracker { remaining: len, previous_key_bytes: None }
    }

    /// Whether another entry is to be read; if so, it is counted as read.
    pub fn next_entry(&mut self) -> (r: bool)
        ensures
            r == (old(self).entries_left() > 0),
            final(self).entries_left() == if r {
                (old(self).entries_left() - 1) as usize
            } else {
                0
            },
            final(self).previous_key() == old(self).previous_key(),
    {
        if self.remaining == 0 {
            return false;
        }
        self.remaining = self.remaining - 1;
        true
    }

    /// The number of entries not read yet.
    pub fn len(&self) -> (r: usize)
        ensures
            r == self.entries_left(),
    {
        self.remaining
    }

    /// Records the key just read: `before` is the input before the key, `after`
    /// the input after it. Keys must come in strictly increasing order.
    pub fn record_key(&mut self, before: &'a [u8], after: &'a [u8]) -> (r: Result<(), Error>)
        ensures
            final(self).entries_left() == old(self).entries_left(),
            ({
                let key_len = if before@.len() >= after@.len() {
                    before@.len() - after@.len()
                } else {
                    0
                };
                let key = before@.take(key_len);
                match r {
                    Ok(()) => (old(self).previous_key() matches Some(p) ==> bytes_lt(p, key))
                        && final(self).previous_key() == Some(key),
                    Err(e) => (old(self).previous_key() matches Some(p) && !bytes_lt(p, key))
                        && e == Error::NonCanonicalMap && final(self).previous_key() == old(
                        self,
                    ).previous_key(),
                }
            }),
    {
        let key_len = before.len().saturating_sub(after.len());
        let (key, _) = before.split_at(key_len);
        if let Some(previous) = self.previous_key_bytes {
            if !bytes_less_than(previous, key) {
                return Err(Error::NonCanonicalMap);
            }
        }
        self.previous_key_bytes = Some(key);
        Ok(())
    }
}

/// `128^a <= 128^b` when `a <= b`.
proof fn lemma_digit_weight_monotone(a: nat, b: nat)
    requires
        a <= b,
    ensures
        digit_weight(a) <= digit_weight(b),
    decreases b,
{
    if a < b {
        lemma_digit_weight_monotone(a, (b - 1) as nat);
        assert(digit_weight(b) == 128 * digit_weight((b - 1) as nat));
    }
}

/// `256^a <= 256^b` when `a <= b`.
proof fn lemma_byte_range_monotone(a: nat, b: nat)
    requires
        a <= b,
    ensures
        byte_range(a) <= byte_range(b),
    decreases b,
{
    if a < b {
        lemma_byte_range_monotone(a, (b - 1) as nat);
        assert(byte_range(b) == 256 * byte_range((b - 1) as nat));
    }
}

} // verus!
