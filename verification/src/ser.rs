//! The BCS serializer: how each kind of value of the serde data model is
//! written, how deep containers may nest, and how maps are put in canonical form.
//!
//! Each method writes the part of the encoding that belongs to one value; the
//! values inside a container are written by the caller, in order, with a
//! serializer that has the remaining depth of the container.

use crate::canonical_map::{entries_view, has_duplicate_keys, into_canonical_order, map_bytes};
use crate::canonical_map::{canonical_entries, entries_bytes, keys_strictly_increasing};
use crate::error::Error;
use crate::little_endian::{
    le_bytes, lemma_twos_complement_i128, lemma_twos_complement_i16, lemma_twos_complement_i32,
    lemma_twos_complement_i64, lemma_twos_complement_i8, twos_complement,
};
use crate::uleb128::uleb128_bytes;
use crate::{MAX_CONTAINER_DEPTH, MAX_SEQUENCE_LENGTH};
use vstd::prelude::*;
use vstd::string::StringSliceAdditionalSpecFns;

verus! {

/// Writes BCS bytes and keeps count of how many more containers may be entered.
pub struct Serializer {
    output: Vec<u8>,
    max_remaining_depth: usize,
}

impl Serializer {
    /// The bytes written so far.
    pub closed spec fn written(&self) -> Seq<u8> {
        self.output@
    }

    /// How many more named containers may be entered.
    pub closed spec fn remaining_depth(&self) -> usize {
        self.max_remaining_depth
    }

    /// A serializer that appends to `output` and may enter `max_remaining_depth`
    /// nested containers.
    pub fn new(output: Vec<u8>, max_remaining_depth: usize) -> (s: Self)
        ensures
            s.written() == output@,
            s.remaining_depth() == max_remaining_depth,
    {
        Self { output, max_remaining_depth }
    }

    /// A serializer with a custom depth limit, which may not exceed
    /// `MAX_CONTAINER_DEPTH`.
    pub fn with_limit(output: Vec<u8>, limit: usize) -> (r: Result<Self, Error>)
        ensures
            match r {
                Ok(s) => limit <= MAX_CONTAINER_DEPTH && s.written() == output@
                    && s.remaining_depth() == limit,
                Err(e) => limit > MAX_CONTAINER_DEPTH && e == Error::NotSupported(
                    "limit exceeds the max allowed depth 500",
                ),
            },
    {
        if limit > MAX_CONTAINER_DEPTH {
            return Err(Error::NotSupported("limit exceeds the max allowed depth 500"));
        }
        Ok(Self::new(output, limit))
    }

    /// The bytes written so far.
    pub fn output(&self) -> (r: &Vec<u8>)
        ensures
            r@ == self.written(),
    {
        &self.output
    }

    /// Gives up the serializer and returns the bytes written.
    pub fn into_output(self) -> (r: Vec<u8>)
        ensures
            r@ == self.written(),
    {
        self.output
    }

    /// How many more named containers may be entered.
    pub fn max_remaining_depth(&self) -> (r: usize)
        ensures
            r == self.remaining_depth(),
    {
        self.max_remaining_depth
    }

    fn write_all(&mut self, bytes: &[u8])
        ensures
            final(self).written() == old(self).written() + bytes@,
            final(self).remaining_depth() == old(self).remaining_depth(),
    {
        let mut i: usize = 0;
        while i < bytes.len()
            invariant
                i <= bytes@.len(),
                self.output@ == old(self).output@ + bytes@.take(i as int),
                self.max_remaining_depth == old(self).max_remaining_depth,
            decreases bytes@.len() - i,
        {
            self.output.push(bytes[i]);
            i = i + 1;
            assert(bytes@.take(i as int) =~= bytes@.take(i - 1).push(bytes@[i - 1]));
        }
        assert(bytes@.take(i as int) =~= bytes@);
    }

    /// Appends the `n` low bytes of `v`, least significant first.
    fn output_le_bytes(&mut self, v: u128, n: usize)
        ensures
            final(self).written() == old(self).written() + le_bytes(v as nat, n as nat),
            final(self).remaining_depth() == old(self).remaining_depth(),
    {
        let mut x: u128 = v;
        let mut i: usize = 0;
        while i < n
            invariant
                i <= n,
                self.output@ + le_bytes(x as nat, (n - i) as nat) == old(self).output@ + le_bytes(
                    v as nat,
                    n as nat,
                ),
                self.max_remaining_depth == old(self).max_remaining_depth,
            decreases n - i,
        {
            let ghost before = self.output@;
            let byte = (x % 256) as u8;
            self.output.push(byte);
            assert(le_bytes(x as nat, (n - i) as nat) == seq![byte] + le_bytes(
                (x / 256) as nat,
                (n - i - 1) as nat,
            ));
            assert(before + (seq![byte] + le_bytes((x / 256) as nat, (n - i - 1) as nat))
                =~= before.push(byte) + le_bytes((x / 256) as nat, (n - i - 1) as nat));
            x = x / 256;
            i = i + 1;
        }
        assert(le_bytes(x as nat, 0) =~= Seq::<u8>::empty());
        assert(self.output@ + Seq::<u8>::empty() =~= self.output@);
    }

    /// Appends `value` in ULEB128.
    pub fn output_u32_as_uleb128(&mut self, value: u32)
        ensures
            final(self).written() == old(self).written() + uleb128_bytes(value as nat),
            final(self).remaining_depth() == old(self).remaining_depth(),
    {
        // One byte covers the small values that lengths and variant indices mostly are.
        if value < 0x80 {
            self.output.push(value as u8);
            assert(uleb128_bytes(value as nat) =~= seq![value as u8]);
            return ;
        }
        let mut v: u32 = value;
        while v >= 0x80
            invariant
                self.output@ + uleb128_bytes(v as nat) == old(self).output@ + uleb128_bytes(
                    value as nat,
                ),
                self.max_remaining_depth == old(self).max_remaining_depth,
            decreases v,
        {
            let ghost before = self.output@;
            let byte = (v as u8 & 0x7f) | 0x80;
            assert((v as u8 & 0x7f) | 0x80 == ((v % 128) + 128) as u8) by (bit_vector)
                requires
                    v >= 0x80,
            ;
            assert(v >> 7 == v / 128) by (bit_vector);
            self.output.push(byte);
            assert(uleb128_bytes(v as nat) == seq![byte] + uleb128_bytes((v / 128) as nat));
            assert(before + (seq![byte] + uleb128_bytes((v / 128) as nat)) =~= before.push(byte)
                + uleb128_bytes((v / 128) as nat));
            v = v >> 7;
        }
        self.output.push(v as u8);
        assert(uleb128_bytes(v as nat) =~= seq![v as u8]);
    }

    /// Appends an enum variant index.
    pub fn output_variant_index(&mut self, v: u32)
        ensures
            final(self).written() == old(self).written() + uleb128_bytes(v as nat),
            final(self).remaining_depth() == old(self).remaining_depth(),
    {
        self.output_u32_as_uleb128(v)
    }

    /// Appends the length of a sequence, which may not exceed `MAX_SEQUENCE_LENGTH`.
    pub fn output_seq_len(&mut self, len: usize) -> (r: Result<(), Error>)
        ensures
            final(self).remaining_depth() == old(self).remaining_depth(),
            match r {
                Ok(()) => len <= MAX_SEQUENCE_LENGTH && final(self).written() == old(self).written()
                    + uleb128_bytes(len as nat),
                Err(e) => len > MAX_SEQUENCE_LENGTH && e == Error::ExceededMaxLen(len)
                    && final(self).written() == old(self).written(),
            },
    {
        if len > MAX_SEQUENCE_LENGTH {
            return Err(Error::ExceededMaxLen(len));
        }
        self.output_u32_as_uleb128(len as u32);
        Ok(())
    }

    /// Enters the named container, which takes one level of the remaining depth.
    pub fn enter_named_container(&mut self, name: &'static str) -> (r: Result<(), Error>)
        ensures
            final(self).written() == old(self).written(),
            match r {
                Ok(()) => old(self).remaining_depth() > 0 && final(self).remaining_depth() == old(
                    self,
                ).remaining_depth() - 1,
                Err(e) => old(self).remaining_depth() == 0 && e == Error::ExceededContainerDepthLimit(
                    name,
                ) && final(self).remaining_depth() == 0,
            },
    {
        if self.max_remaining_depth == 0 {
            return Err(Error::ExceededContainerDepthLimit(name));
        }
        self.max_remaining_depth = self.max_remaining_depth - 1;
        Ok(())
    }
}


impl Serializer {
    /// A boolean is one byte, `1` for true and `0` for false.
    pub fn serialize_bool(&mut self, v: bool)
        ensures
            final(self).written() == old(self).written().push(if v { 1u8 } else { 0u8 }),
            final(self).remaining_depth() == old(self).remaining_depth(),
    {
        self.output.push(if v { 1u8 } else { 0u8 });
    }

    /// A signed byte is written as its two's complement.
    pub fn serialize_i8(&mut self, v: i8)
        ensures
            final(self).written() == old(self).written().push(twos_complement(v as int, 0x100) as u8),
            final(self).remaining_depth() == old(self).remaining_depth(),
    {
        proof {
            lemma_twos_complement_i8(v);
        }
        self.output.push(v as u8);
    }

    /// Two bytes of two's complement, least significant first.
    pub fn serialize_i16(&mut self, v: i16)
        ensures
            final(self).written() == old(self).written() + le_bytes(
                twos_complement(v as int, 0x1_0000),
                2,
            ),
            final(self).remaining_depth() == old(self).remaining_depth(),
    {
        proof {
            lemma_twos_complement_i16(v);
        }
        self.output_le_bytes((v as u16) as u128, 2);
    }

    /// Four bytes of two's complement, least significant first.
    pub fn serialize_i32(&mut self, v: i32)
        ensures
            final(self).written() == old(self).written() + le_bytes(
                twos_complement(v as int, 0x1_0000_0000),
                4,
            ),
            final(self).remaining_depth() == old(self).remaining_depth(),
    {
        proof {
            lemma_twos_complement_i32(v);
        }
        self.output_le_bytes((v as u32) as u128, 4);
    }

    /// Eight bytes of two's complement, least significant first.
    pub fn serialize_i64(&mut self, v: i64)
        ensures
            final(self).written() == old(self).written() + le_bytes(
                twos_complement(v as int, 0x1_0000_0000_0000_0000),
                8,
            ),
            final(self).remaining_depth() == old(self).remaining_depth(),
    {
        proof {
            lemma_twos_complement_i64(v);
        }
        self.output_le_bytes((v as u64) as u128, 8);
    }

    /// Sixteen bytes of two's complement, least significant first.
    pub fn serialize_i128(&mut self, v: i128)
        ensures
            final(self).written() == old(self).written() + le_bytes(
                twos_complement(v as int, 0x1_0000_0000_0000_0000_0000_0000_0000_0000nat),
                16,
            ),
            final(self).remaining_depth() == old(self).remaining_depth(),
    {
        proof {
            lemma_twos_complement_i128(v);
        }
        self.output_le_bytes(v as u128, 16);
    }

    /// An unsigned byte is written as it is.
    pub fn serialize_u8(&mut self, v: u8)
        ensures
            final(self).written() == old(self).written().push(v),
            final(self).remaining_depth() == old(self).remaining_depth(),
    {
        self.output.push(v);
    }

    /// Two bytes, least significant first.
    pub fn serialize_u16(&mut self, v: u16)
        ensures
            final(self).written() == old(self).written() + le_bytes(v as nat, 2),
            final(self).remaining_depth() == old(self).remaining_depth(),
    {
        self.output_le_bytes(v as u128, 2);
    }

    /// Four bytes, least significant first.
    pub fn serialize_u32(&mut self, v: u32)
        ensures
            final(self).written() == old(self).written() + le_bytes(v as nat, 4),
            final(self).remaining_depth() == old(self).remaining_depth(),
    {
        self.output_le_bytes(v as u128, 4);
    }

    /// Eight bytes, least significant first.
    pub fn serialize_u64(&mut self, v: u64)
        ensures
            final(self).written() == old(self).written() + le_bytes(v as nat, 8),
            final(self).remaining_depth() == old(self).remaining_depth(),
    {
        self.output_le_bytes(v as u128, 8);
    }

    /// Sixteen bytes, least significant first.
    pub fn serialize_u128(&mut self, v: u128)
        ensures
            final(self).written() == old(self).written() + le_bytes(v as nat, 16),
            final(self).remaining_depth() == old(self).remaining_depth(),
    {
        self.output_le_bytes(v, 16);
    }

    /// Floating point numbers are not part of BCS; `_bits` is the number's bit pattern.
    pub fn serialize_f32(&mut self, _bits: u32) -> (r: Result<(), Error>)
        ensures
            r == Err::<(), Error>(Error::NotSupported("serialize_f32")),
            *final(self) == *old(self),
    {
        Err(Error::NotSupported("serialize_f32"))
    }

    /// Floating point numbers are not part of BCS; `_bits` is the number's bit pattern.
    pub fn serialize_f64(&mut self, _bits: u64) -> (r: Result<(), Error>)
        ensures
            r == Err::<(), Error>(Error::NotSupported("serialize_f64")),
            *final(self) == *old(self),
    {
        Err(Error::NotSupported("serialize_f64"))
    }

    /// Characters are not part of BCS.
    pub fn serialize_char(&mut self, _v: char) -> (r: Result<(), Error>)
        ensures
            r == Err::<(), Error>(Error::NotSupported("serialize_char")),
            *final(self) == *old(self),
    {
        Err(Error::NotSupported("serialize_char"))
    }

    /// A string is written as the byte sequence of its UTF-8 encoding.
    pub fn serialize_str(&mut self, v: &str) -> (r: Result<(), Error>)
        ensures
            final(self).remaining_depth() == old(self).remaining_depth(),
            match r {
                Ok(()) => v.spec_bytes().len() <= MAX_SEQUENCE_LENGTH && final(self).written() == old(
                    self,
                ).written() + uleb128_bytes(v.spec_bytes().len()) + v.spec_bytes(),
                Err(e) => v.spec_bytes().len() > MAX_SEQUENCE_LENGTH && e == Error::ExceededMaxLen(
                    v.spec_bytes().len() as usize,
                ) && final(self).written() == old(self).written(),
            },
    {
        self.serialize_bytes(v.as_bytes())
    }

    /// A byte array is its length, then its bytes.
    pub fn serialize_bytes(&mut self, v: &[u8]) -> (r: Result<(), Error>)
        ensures
            final(self).remaining_depth() == old(self).remaining_depth(),
            match r {
                Ok(()) => v@.len() <= MAX_SEQUENCE_LENGTH && final(self).written() == old(
                    self,
                ).written() + uleb128_bytes(v@.len()) + v@,
                Err(e) => v@.len() > MAX_SEQUENCE_LENGTH && e == Error::ExceededMaxLen(v@.len() as usize)
                    && final(self).written() == old(self).written(),
            },
    {
        self.output_seq_len(v.len())?;
        self.write_all(v);
        Ok(())
    }

    /// An absent optional value is the byte `0`.
    pub fn serialize_none(&mut self)
        ensures
            final(self).written() == old(self).written().push(0u8),
            final(self).remaining_depth() == old(self).remaining_depth(),
    {
        self.output.push(0u8);
    }

    /// A present optional value is the byte `1`, then the value.
    pub fn serialize_some(&mut self)
        ensures
            final(self).written() == old(self).written().push(1u8),
            final(self).remaining_depth() == old(self).remaining_depth(),
    {
        self.output.push(1u8);
    }

    /// The unit value takes no bytes.
    pub fn serialize_unit(&mut self)
        ensures
            *final(self) == *old(self),
    {
    }

    /// A unit struct takes no bytes, but counts as a container.
    pub fn serialize_unit_struct(&mut self, name: &'static str) -> (r: Result<(), Error>)
        ensures
            final(self).written() == old(self).written(),
            match r {
                Ok(()) => old(self).remaining_depth() > 0 && final(self).remaining_depth() == old(
                    self,
                ).remaining_depth() - 1,
                Err(e) => old(self).remaining_depth() == 0 && e == Error::ExceededContainerDepthLimit(
                    name,
                ) && final(self).remaining_depth() == 0,
            },
    {
        self.enter_named_container(name)
    }

    /// A variant without data is its index.
    pub fn serialize_unit_variant(
        &mut self,
        name: &'static str,
        variant_index: u32,
        _variant: &'static str,
    ) -> (r: Result<(), Error>)
        ensures
            match r {
                Ok(()) => old(self).remaining_depth() > 0 && final(self).remaining_depth() == old(
                    self,
                ).remaining_depth() - 1 && final(self).written() == old(self).written()
                    + uleb128_bytes(variant_index as nat),
                Err(e) => old(self).remaining_depth() == 0 && e == Error::ExceededContainerDepthLimit(
                    name,
                ) && final(self).written() == old(self).written() && final(self).remaining_depth() == 0,
            },
    {
        self.enter_named_container(name)?;
        self.output_variant_index(variant_index);
        Ok(())
    }

    /// A newtype struct is its one field, written after this call; it counts as a container.
    pub fn serialize_newtype_struct(&mut self, name: &'static str) -> (r: Result<(), Error>)
        ensures
            final(self).written() == old(self).written(),
            match r {
                Ok(()) => old(self).remaining_depth() > 0 && final(self).remaining_depth() == old(
                    self,
                ).remaining_depth() - 1,
                Err(e) => old(self).remaining_depth() == 0 && e == Error::ExceededContainerDepthLimit(
                    name,
                ) && final(self).remaining_depth() == 0,
            },
    {
        self.enter_named_container(name)
    }

    /// A variant with one field is its index, then the field, written after this call.
    pub fn serialize_newtype_variant(
        &mut self,
        name: &'static str,
        variant_index: u32,
        _variant: &'static str,
    ) -> (r: Result<(), Error>)
        ensures
            match r {
                Ok(()) => old(self).remaining_depth() > 0 && final(self).remaining_depth() == old(
                    self,
                ).remaining_depth() - 1 && final(self).written() == old(self).written()
                    + uleb128_bytes(variant_index as nat),
                Err(e) => old(self).remaining_depth() == 0 && e == Error::ExceededContainerDepthLimit(
                    name,
                ) && final(self).written() == old(self).written() && final(self).remaining_depth() == 0,
            },
    {
        self.enter_named_container(name)?;
        self.output_variant_index(variant_index);
        Ok(())
    }

    /// A sequence is its length, then its elements, written after this call. The
    /// length must be known in advance.
    pub fn serialize_seq(&mut self, len: Option<usize>) -> (r: Result<(), Error>)
        ensures
            final(self).remaining_depth() == old(self).remaining_depth(),
            match r {
                Ok(()) => len is Some && len->0 <= MAX_SEQUENCE_LENGTH && final(self).written()
                    == old(self).written() + uleb128_bytes(len->0 as nat),
                Err(e) => final(self).written() == old(self).written() && match len {
                    None => e == Error::MissingLen,
                    Some(n) => n > MAX_SEQUENCE_LENGTH && e == Error::ExceededMaxLen(n),
                },
            },
    {
        match len {
            Some(len) => self.output_seq_len(len),
            None => Err(Error::MissingLen),
        }
    }

    /// A tuple is its elements, written after this call, with no length.
    pub fn serialize_tuple(&mut self, _len: usize)
        ensures
            *final(self) == *old(self),
    {
    }

    /// A tuple struct is its fields, written after this call; it counts as a container.
    pub fn serialize_tuple_struct(&mut self, name: &'static str, _len: usize) -> (r: Result<
        (),
        Error,
    >)
        ensures
            final(self).written() == old(self).written(),
            match r {
                Ok(()) => old(self).remaining_depth() > 0 && final(self).remaining_depth() == old(
                    self,
                ).remaining_depth() - 1,
                Err(e) => old(self).remaining_depth() == 0 && e == Error::ExceededContainerDepthLimit(
                    name,
                ) && final(self).remaining_depth() == 0,
            },
    {
        self.enter_named_container(name)
    }

    /// A variant with unnamed fields is its index, then the fields, written after this call.
    pub fn serialize_tuple_variant(
        &mut self,
        name: &'static str,
        variant_index: u32,
        _variant: &'static str,
        _len: usize,
    ) -> (r: Result<(), Error>)
        ensures
            match r {
                Ok(()) => old(self).remaining_depth() > 0 && final(self).remaining_depth() == old(
                    self,
                ).remaining_depth() - 1 && final(self).written() == old(self).written()
                    + uleb128_bytes(variant_index as nat),
                Err(e) => old(self).remaining_depth() == 0 && e == Error::ExceededContainerDepthLimit(
                    name,
                ) && final(self).written() == old(self).written() && final(self).remaining_depth() == 0,
            },
    {
        self.enter_named_container(name)?;
        self.output_variant_index(variant_index);
        Ok(())
    }

    /// A struct is its fields in declaration order, written after this call, with
    /// neither names nor count; it counts as a container.
    pub fn serialize_struct(&mut self, name: &'static str, _len: usize) -> (r: Result<(), Error>)
        ensures
            final(self).written() == old(self).written(),
            match r {
                Ok(()) => old(self).remaining_depth() > 0 && final(self).remaining_depth() == old(
                    self,
                ).remaining_depth() - 1,
                Err(e) => old(self).remaining_depth() == 0 && e == Error::ExceededContainerDepthLimit(
                    name,
                ) && final(self).remaining_depth() == 0,
            },
    {
        self.enter_named_container(name)
    }

    /// A variant with named fields is its index, then the fields, written after this call.
    pub fn serialize_struct_variant(
        &mut self,
        name: &'static str,
        variant_index: u32,
        _variant: &'static str,
        _len: usize,
    ) -> (r: Result<(), Error>)
        ensures
            match r {
                Ok(()) => old(self).remaining_depth() > 0 && final(self).remaining_depth() == old(
                    self,
                ).remaining_depth() - 1 && final(self).written() == old(self).written()
                    + uleb128_bytes(variant_index as nat),
                Err(e) => old(self).remaining_depth() == 0 && e == Error::ExceededContainerDepthLimit(
                    name,
                ) && final(self).written() == old(self).written() && final(self).remaining_depth() == 0,
            },
    {
        self.enter_named_container(name)?;
        self.output_variant_index(variant_index);
        Ok(())
    }

    /// BCS is a binary format.
    pub fn is_human_readable(&self) -> (r: bool)
        ensures
            !r,
    {
        false
    }
}


impl Serializer {
    /// A map is collected entry by entry and written at its end, in canonical order.
    pub fn serialize_map(self, _len: Option<usize>) -> (m: MapSerializer)
        ensures
            m.written() == self.written(),
            m.remaining_depth() == self.remaining_depth(),
            m.entries() == Seq::<(Seq<u8>, Seq<u8>)>::empty(),
            m.pending_key() is None,
    {
        MapSerializer::new(self)
    }
}

/// Collects the entries of a map, each serialized on its own, so that they can
/// be written sorted by key.
pub struct MapSerializer {
    serializer: Serializer,
    entries: Vec<(Vec<u8>, Vec<u8>)>,
    next_key: Option<Vec<u8>>,
}

impl MapSerializer {
    /// The bytes written before the map.
    pub closed spec fn written(&self) -> Seq<u8> {
        self.serializer.written()
    }

    /// The depth that the keys and values are serialized with.
    pub closed spec fn remaining_depth(&self) -> usize {
        self.serializer.remaining_depth()
    }

    /// The complete entries collected so far, in the order they came.
    pub closed spec fn entries(&self) -> Seq<(Seq<u8>, Seq<u8>)> {
        entries_view(self.entries@)
    }

    /// A key that still waits for its value.
    pub closed spec fn pending_key(&self) -> Option<Seq<u8>> {
        match self.next_key {
            Some(k) => Some(k@),
            None => None,
        }
    }

    /// A map serializer with no entries that writes through `serializer`.
    pub fn new(serializer: Serializer) -> (m: Self)
        ensures
            m.written() == serializer.written(),
            m.remaining_depth() == serializer.remaining_depth(),
            m.entries() == Seq::<(Seq<u8>, Seq<u8>)>::empty(),
            m.pending_key() is None,
    {
        let m = MapSerializer { serializer, entries: Vec::new(), next_key: None };
        assert(m.entries() =~= Seq::<(Seq<u8>, Seq<u8>)>::empty());
        m
    }

    /// The depth that keys and values must be serialized with.
    pub fn max_remaining_depth(&self) -> (r: usize)
        ensures
            r == self.remaining_depth(),
    {
        self.serializer.max_remaining_depth()
    }

    /// Records the next key. `key` serializes it, given the depth to use; it is
    /// called only when no key is waiting for its value.
    pub fn serialize_key<F>(&mut self, key: F) -> (r: Result<(), Error>) where
        F: FnOnce(usize) -> Result<Vec<u8>, Error>,

        requires
            old(self).pending_key() is None ==> key.requires((old(self).remaining_depth(),)),
        ensures
            final(self).written() == old(self).written(),
            final(self).remaining_depth() == old(self).remaining_depth(),
            final(self).entries() == old(self).entries(),
            old(self).pending_key() is Some ==> r == Err::<(), Error>(Error::ExpectedMapValue)
                && final(self).pending_key() == old(self).pending_key(),
            old(self).pending_key() is None ==> exists|out: Result<Vec<u8>, Error>|
                #[trigger] key.ensures((old(self).remaining_depth(),), out) && match out {
                    Ok(k) => r is Ok && final(self).pending_key() == Some(k@),
                    Err(e) => r == Err::<(), Error>(e) && final(self).pending_key() is None,
                },
    {
        if self.next_key.is_some() {
            return Err(Error::ExpectedMapValue);
        }
        let out = key(self.serializer.max_remaining_depth());
        match out {
            Ok(k) => {
                self.next_key = Some(k);
                Ok(())
            },
            Err(e) => Err(e),
        }
    }

    /// Records the value of the waiting key. `value` serializes it, given the depth
    /// to use; it is called only when a key is waiting.
    pub fn serialize_value<F>(&mut self, value: F) -> (r: Result<(), Error>) where
        F: FnOnce(usize) -> Result<Vec<u8>, Error>,

        requires
            old(self).pending_key() is Some ==> value.requires((old(self).remaining_depth(),)),
        ensures
            final(self).written() == old(self).written(),
            final(self).remaining_depth() == old(self).remaining_depth(),
            final(self).pending_key() is None,
            old(self).pending_key() is None ==> r == Err::<(), Error>(Error::ExpectedMapKey)
                && final(self).entries() == old(self).entries(),
            old(self).pending_key() is Some ==> exists|out: Result<Vec<u8>, Error>|
                #[trigger] value.ensures((old(self).remaining_depth(),), out) && match out {
                    Ok(v) => r is Ok && final(self).entries() == old(self).entries().push(
                        (old(self).pending_key()->0, v@),
                    ),
                    Err(e) => r == Err::<(), Error>(e) && final(self).entries() == old(
                        self,
                    ).entries(),
                },
    {
        match self.next_key.take() {
            Some(key) => {
                let out = value(self.serializer.max_remaining_depth());
                match out {
                    Ok(v) => {
                        let ghost before = self.entries@;
                        self.entries.push((key, v));
                        assert(entries_view(self.entries@) =~= entries_view(before).push(
                            (old(self).pending_key()->0, out->Ok_0@),
                        ));
                        Ok(())
                    },
                    Err(e) => Err(e),
                }
            },
            None => Err(Error::ExpectedMapKey),
        }
    }

    /// Writes the map: the number of entries, then the entries sorted by key.
    /// Returns all the bytes of the serializer, those before the map included.
    pub fn end(self) -> (r: Result<Vec<u8>, Error>)
        ensures
            self.pending_key() is Some ==> r == Err::<Vec<u8>, Error>(Error::ExpectedMapValue),
            self.pending_key() is None && has_duplicate_keys(self.entries()) ==> r == Err::<
                Vec<u8>,
                Error,
            >(Error::NonCanonicalMap),
            self.pending_key() is None && !has_duplicate_keys(self.entries())
                && self.entries().len() > MAX_SEQUENCE_LENGTH ==> r == Err::<Vec<u8>, Error>(
                Error::ExceededMaxLen(self.entries().len() as usize),
            ),
            self.pending_key() is None && !has_duplicate_keys(self.entries())
                && self.entries().len() <= MAX_SEQUENCE_LENGTH ==> r is Ok && r->Ok_0@
                == self.written() + map_bytes(self.entries()),
            // The entries are written by strictly increasing key, each exactly once.
            r is Ok ==> keys_strictly_increasing(canonical_entries(self.entries()))
                && canonical_entries(self.entries()).to_set() == self.entries().to_set()
                && canonical_entries(self.entries()).len() == self.entries().len(),
    {
        if self.next_key.is_some() {
            return Err(Error::ExpectedMapValue);
        }
        let ghost all = entries_view(self.entries@);
        let mut serializer = self.serializer;
        let sorted = match into_canonical_order(self.entries) {
            Some(sorted) => sorted,
            None => return Err(Error::NonCanonicalMap),
        };
        let ghost sv = entries_view(sorted@);
        let len = sorted.len();
        serializer.output_seq_len(len)?;
        let ghost start = serializer.written();
        let mut i: usize = 0;
        while i < sorted.len()
            invariant
                i <= sorted@.len(),
                sv == entries_view(sorted@),
                serializer.written() == start + entries_bytes(sv.take(i as int)),
            decreases sorted@.len() - i,
        {
            serializer.write_all(sorted[i].0.as_slice());
            serializer.write_all(sorted[i].1.as_slice());
            proof {
                let t = sv.take(i + 1);
                assert(t.drop_last() =~= sv.take(i as int));
                assert(t.last() == sv[i as int]);
            }
            i = i + 1;
            assert(start + entries_bytes(sv.take(i - 1)) + sv[i - 1].0 + sv[i - 1].1 =~= start + (
            entries_bytes(sv.take(i - 1)) + sv[i - 1].0 + sv[i - 1].1));
        }
        assert(sv.take(i as int) =~= sv);
        assert(sv == canonical_entries(all));
        Ok(serializer.into_output())
    }
}


/// Whether BCS is a human-readable format: it never is.
pub fn is_human_readable() -> (r: bool)
    ensures
        !r,
{
    let output: Vec<u8> = Vec::new();
    let serializer = Serializer::new(output, MAX_CONTAINER_DEPTH);
    serializer.is_human_readable()
}

/// Counts the bytes that would be written, without keeping them.
pub struct WriteCounter(usize);

impl WriteCounter {
    /// The number of bytes counted so far.
    pub closed spec fn count(&self) -> usize {
        self.0
    }

    /// A counter at zero.
    pub fn new() -> (c: Self)
        ensures
            c.count() == 0,
    {
        WriteCounter(0)
    }

    /// The number of bytes counted so far.
    pub fn total(&self) -> (r: usize)
        ensures
            r == self.count(),
    {
        self.0
    }

    /// Counts `buf`; fails, counting nothing, when the total would not fit in a `usize`.
    pub fn write(&mut self, buf: &[u8]) -> (r: Result<usize, Error>)
        ensures
            old(self).count() + buf@.len() <= usize::MAX ==> r == Ok::<usize, Error>(buf@.len() as usize)
                && final(self).count() == old(self).count() + buf@.len(),
            old(self).count() + buf@.len() > usize::MAX ==> final(self).count() == old(self).count()
                && (r matches Err(Error::Io(msg)) && msg@ == "WriteCounter reached max value"@),
    {
        let len = buf.len();
        match self.0.checked_add(len) {
            Some(total) => {
                self.0 = total;
                Ok(len)
            },
            None => Err(Error::Io("WriteCounter reached max value".to_owned())),
        }
    }

    /// There is nothing to flush.
    pub fn flush(&mut self) -> (r: Result<(), Error>)
        ensures
            r is Ok,
            final(self).count() == old(self).count(),
    {
        Ok(())
    }
}

} // verus!
