//! Marker traits for the types that BCS can encode and decode, and the standard
//! types that carry them.

use std::borrow::Cow;
use std::collections::{BTreeMap, BTreeSet};
use std::path::{Path, PathBuf};
use vstd::prelude::*;

verus! {

/// A type whose values BCS can encode.
pub trait TBCSSerialize {

}

/// A type whose values BCS can decode from bytes that live for `'de`.
pub trait TBCSDeserialize<'de> {

}

/// A type whose values BCS can decode from bytes of any lifetime.
pub trait TBCSDeserializeOwned: for<'de> TBCSDeserialize<'de> {

}

impl<T> TBCSDeserializeOwned for T where T: for<'de> TBCSDeserialize<'de> {

}

/// `std::path::Path`, carried through as an opaque value.
#[verifier::external_type_specification]
#[verifier::external_body]
pub struct ExPath(Path);

/// `std::path::PathBuf`, carried through as an opaque value.
#[verifier::external_type_specification]
#[verifier::external_body]
pub struct ExPathBuf(PathBuf);

/// `rust_decimal::Decimal`, carried through as an opaque value.
#[verifier::external_type_specification]
#[verifier::external_body]
pub struct ExDecimal(rust_decimal::Decimal);

/// `bigdecimal::BigDecimal`, carried through as an opaque value.
#[verifier::external_type_specification]
#[verifier::external_body]
pub struct ExBigDecimal(bigdecimal::BigDecimal);

impl TBCSSerialize for () {

}

impl<'de> TBCSDeserialize<'de> for () {

}

impl TBCSSerialize for bool {

}

impl<'de> TBCSDeserialize<'de> for bool {

}

impl TBCSSerialize for char {

}

impl<'de> TBCSDeserialize<'de> for char {

}

impl TBCSSerialize for u8 {

}

impl<'de> TBCSDeserialize<'de> for u8 {

}

impl TBCSSerialize for u16 {

}

impl<'de> TBCSDeserialize<'de> for u16 {

}

impl TBCSSerialize for u32 {

}

impl<'de> TBCSDeserialize<'de> for u32 {

}

impl TBCSSerialize for u64 {

}

impl<'de> TBCSDeserialize<'de> for u64 {

}

impl TBCSSerialize for u128 {

}

impl<'de> TBCSDeserialize<'de> for u128 {

}

impl TBCSSerialize for usize {

}

impl<'de> TBCSDeserialize<'de> for usize {

}

impl TBCSSerialize for i8 {

}

impl<'de> TBCSDeserialize<'de> for i8 {

}

impl TBCSSerialize for i16 {

}

impl<'de> TBCSDeserialize<'de> for i16 {

}

impl TBCSSerialize for i32 {

}

impl<'de> TBCSDeserialize<'de> for i32 {

}

impl TBCSSerialize for i64 {

}

impl<'de> TBCSDeserialize<'de> for i64 {

}

impl TBCSSerialize for i128 {

}

impl<'de> TBCSDeserialize<'de> for i128 {

}

impl TBCSSerialize for isize {

}

impl<'de> TBCSDeserialize<'de> for isize {

}

impl TBCSSerialize for String {

}

impl<'de> TBCSDeserialize<'de> for String {

}

impl TBCSSerialize for str {

}

impl TBCSSerialize for Path {

}

impl TBCSSerialize for PathBuf {

}

impl TBCSDeserialize<'_> for PathBuf {

}

impl<T: ?Sized + TBCSSerialize> TBCSSerialize for &T {

}

impl<T: TBCSSerialize> TBCSSerialize for Option<T> {

}

impl<'de, T: TBCSDeserialize<'de>> TBCSDeserialize<'de> for Option<T> {

}

impl<T: TBCSSerialize> TBCSSerialize for Vec<T> {

}

impl<'de, T: TBCSDeserialize<'de>> TBCSDeserialize<'de> for Vec<T> {

}

impl<T: TBCSSerialize> TBCSSerialize for Box<T> {

}

impl<'de, T: TBCSDeserialize<'de>> TBCSDeserialize<'de> for Box<T> {

}

impl<T: TBCSSerialize> TBCSSerialize for [T] {

}

// Arrays of up to 32 elements, as far as serde implements them.
impl<T: TBCSSerialize> TBCSSerialize for [T; 0] {

}

impl<'de, T: TBCSDeserialize<'de>> TBCSDeserialize<'de> for [T; 0] {

}

impl<T: TBCSSerialize> TBCSSerialize for [T; 1] {

}

impl<'de, T: TBCSDeserialize<'de>> TBCSDeserialize<'de> for [T; 1] {

}

impl<T: TBCSSerialize> TBCSSerialize for [T; 2] {

}

impl<'de, T: TBCSDeserialize<'de>> TBCSDeserialize<'de> for [T; 2] {

}

impl<T: TBCSSerialize> TBCSSerialize for [T; 3] {

}

impl<'de, T: TBCSDeserialize<'de>> TBCSDeserialize<'de> for [T; 3] {

}

impl<T: TBCSSerialize> TBCSSerialize for [T; 4] {

}

impl<'de, T: TBCSDeserialize<'de>> TBCSDeserialize<'de> for [T; 4] {

}

impl<T: TBCSSerialize> TBCSSerialize for [T; 5] {

}

impl<'de, T: TBCSDeserialize<'de>> TBCSDeserialize<'de> for [T; 5] {

}

impl<T: TBCSSerialize> TBCSSerialize for [T; 6] {

}

impl<'de, T: TBCSDeserialize<'de>> TBCSDeserialize<'de> for [T; 6] {

}

impl<T: TBCSSerialize> TBCSSerialize for [T; 7] {

}

impl<'de, T: TBCSDeserialize<'de>> TBCSDeserialize<'de> for [T; 7] {

}

impl<T: TBCSSerialize> TBCSSerialize for [T; 8] {

}

impl<'de, T: TBCSDeserialize<'de>> TBCSDeserialize<'de> for [T; 8] {

}

impl<T: TBCSSerialize> TBCSSerialize for [T; 9] {

}

impl<'de, T: TBCSDeserialize<'de>> TBCSDeserialize<'de> for [T; 9] {

}

impl<T: TBCSSerialize> TBCSSerialize for [T; 10] {

}

impl<'de, T: TBCSDeserialize<'de>> TBCSDeserialize<'de> for [T; 10] {

}

impl<T: TBCSSerialize> TBCSSerialize for [T; 11] {

}

impl<'de, T: TBCSDeserialize<'de>> TBCSDeserialize<'de> for [T; 11] {

}

impl<T: TBCSSerialize> TBCSSerialize for [T; 12] {

}

impl<'de, T: TBCSDeserialize<'de>> TBCSDeserialize<'de> for [T; 12] {

}

impl<T: TBCSSerialize> TBCSSerialize for [T; 13] {

}

impl<'de, T: TBCSDeserialize<'de>> TBCSDeserialize<'de> for [T; 13] {

}

impl<T: TBCSSerialize> TBCSSerialize for [T; 14] {

}

impl<'de, T: TBCSDeserialize<'de>> TBCSDeserialize<'de> for [T; 14] {

}

impl<T: TBCSSerialize> TBCSSerialize for [T; 15] {

}

impl<'de, T: TBCSDeserialize<'de>> TBCSDeserialize<'de> for [T; 15] {

}

impl<T: TBCSSerialize> TBCSSerialize for [T; 16] {

}

impl<'de, T: TBCSDeserialize<'de>> TBCSDeserialize<'de> for [T; 16] {

}

impl<T: TBCSSerialize> TBCSSerialize for [T; 17] {

}

impl<'de, T: TBCSDeserialize<'de>> TBCSDeserialize<'de> for [T; 17] {

}

impl<T: TBCSSerialize> TBCSSerialize for [T; 18] {

}

impl<'de, T: TBCSDeserialize<'de>> TBCSDeserialize<'de> for [T; 18] {

}

impl<T: TBCSSerialize> TBCSSerialize for [T; 19] {

}

impl<'de, T: TBCSDeserialize<'de>> TBCSDeserialize<'de> for [T; 19] {

}

impl<T: TBCSSerialize> TBCSSerialize for [T; 20] {

}

impl<'de, T: TBCSDeserialize<'de>> TBCSDeserialize<'de> for [T; 20] {

}

impl<T: TBCSSerialize> TBCSSerialize for [T; 21] {

}

impl<'de, T: TBCSDeserialize<'de>> TBCSDeserialize<'de> for [T; 21] {

}

impl<T: TBCSSerialize> TBCSSerialize for [T; 22] {

}

impl<'de, T: TBCSDeserialize<'de>> TBCSDeserialize<'de> for [T; 22] {

}

impl<T: TBCSSerialize> TBCSSerialize for [T; 23] {

}

impl<'de, T: TBCSDeserialize<'de>> TBCSDeserialize<'de> for [T; 23] {

}

impl<T: TBCSSerialize> TBCSSerialize for [T; 24] {

}

impl<'de, T: TBCSDeserialize<'de>> TBCSDeserialize<'de> for [T; 24] {

}

impl<T: TBCSSerialize> TBCSSerialize for [T; 25] {

}

impl<'de, T: TBCSDeserialize<'de>> TBCSDeserialize<'de> for [T; 25] {

}

impl<T: TBCSSerialize> TBCSSerialize for [T; 26] {

}

impl<'de, T: TBCSDeserialize<'de>> TBCSDeserialize<'de> for [T; 26] {

}

impl<T: TBCSSerialize> TBCSSerialize for [T; 27] {

}

impl<'de, T: TBCSDeserialize<'de>> TBCSDeserialize<'de> for [T; 27] {

}

impl<T: TBCSSerialize> TBCSSerialize for [T; 28] {

}

impl<'de, T: TBCSDeserialize<'de>> TBCSDeserialize<'de> for [T; 28] {

}

impl<T: TBCSSerialize> TBCSSerialize for [T; 29] {

}

impl<'de, T: TBCSDeserialize<'de>> TBCSDeserialize<'de> for [T; 29] {

}

impl<T: TBCSSerialize> TBCSSerialize for [T; 30] {

}

impl<'de, T: TBCSDeserialize<'de>> TBCSDeserialize<'de> for [T; 30] {

}

impl<T: TBCSSerialize> TBCSSerialize for [T; 31] {

}

impl<'de, T: TBCSDeserialize<'de>> TBCSDeserialize<'de> for [T; 31] {

}

impl<T: TBCSSerialize> TBCSSerialize for [T; 32] {

}

impl<'de, T: TBCSDeserialize<'de>> TBCSDeserialize<'de> for [T; 32] {

}

impl<T> TBCSSerialize for Cow<'_, T> where T: ?Sized + ToOwned + TBCSSerialize {

}

impl<'de, T> TBCSDeserialize<'de> for Cow<'_, T> where T: ?Sized + ToOwned, T::Owned: TBCSDeserialize<'de> {

}

impl<K: TBCSSerialize, V: TBCSSerialize> TBCSSerialize for BTreeMap<K, V> {

}

impl<'de, K: TBCSDeserialize<'de> + Ord, V: TBCSDeserialize<'de>> TBCSDeserialize<'de> for BTreeMap<
    K,
    V,
> {

}

impl<T: TBCSSerialize> TBCSSerialize for BTreeSet<T> {

}

impl<'de, T: TBCSDeserialize<'de> + Ord> TBCSDeserialize<'de> for BTreeSet<T> {

}

// `HashMap` is left out on purpose: its iteration order is not deterministic, and
// BCS maps are canonical; use `BTreeMap` for map payloads.
// Tuples of one to twelve elements.
impl<A: TBCSSerialize> TBCSSerialize for (A,) {

}

impl<'de, A: TBCSDeserialize<'de>> TBCSDeserialize<'de> for (A,) {

}

impl<A: TBCSSerialize, B: TBCSSerialize> TBCSSerialize for (A, B,) {

}

impl<'de, A: TBCSDeserialize<'de>, B: TBCSDeserialize<'de>> TBCSDeserialize<'de> for (A, B,) {

}

impl<A: TBCSSerialize, B: TBCSSerialize, C: TBCSSerialize> TBCSSerialize for (A, B, C,) {

}

impl<'de, A: TBCSDeserialize<'de>, B: TBCSDeserialize<'de>, C: TBCSDeserialize<'de>> TBCSDeserialize<'de> for (A, B, C,) {

}

impl<A: TBCSSerialize, B: TBCSSerialize, C: TBCSSerialize, D: TBCSSerialize> TBCSSerialize for (A, B, C, D,) {

}

impl<'de, A: TBCSDeserialize<'de>, B: TBCSDeserialize<'de>, C: TBCSDeserialize<'de>, D: TBCSDeserialize<'de>> TBCSDeserialize<'de> for (A, B, C, D,) {

}

impl<A: TBCSSerialize, B: TBCSSerialize, C: TBCSSerialize, D: TBCSSerialize, E: TBCSSerialize> TBCSSerialize for (A, B, C, D, E,) {

}

impl<'de, A: TBCSDeserialize<'de>, B: TBCSDeserialize<'de>, C: TBCSDeserialize<'de>, D: TBCSDeserialize<'de>, E: TBCSDeserialize<'de>> TBCSDeserialize<'de> for (A, B, C, D, E,) {

}

impl<A: TBCSSerialize, B: TBCSSerialize, C: TBCSSerialize, D: TBCSSerialize, E: TBCSSerialize, F: TBCSSerialize> TBCSSerialize for (A, B, C, D, E, F,) {

}

impl<'de, A: TBCSDeserialize<'de>, B: TBCSDeserialize<'de>, C: TBCSDeserialize<'de>, D: TBCSDeserialize<'de>, E: TBCSDeserialize<'de>, F: TBCSDeserialize<'de>> TBCSDeserialize<'de> for (A, B, C, D, E, F,) {

}

impl<A: TBCSSerialize, B: TBCSSerialize, C: TBCSSerialize, D: TBCSSerialize, E: TBCSSerialize, F: TBCSSerialize, G: TBCSSerialize> TBCSSerialize for (A, B, C, D, E, F, G,) {

}

impl<'de, A: TBCSDeserialize<'de>, B: TBCSDeserialize<'de>, C: TBCSDeserialize<'de>, D: TBCSDeserialize<'de>, E: TBCSDeserialize<'de>, F: TBCSDeserialize<'de>, G: TBCSDeserialize<'de>> TBCSDeserialize<'de> for (A, B, C, D, E, F, G,) {

}

impl<A: TBCSSerialize, B: TBCSSerialize, C: TBCSSerialize, D: TBCSSerialize, E: TBCSSerialize, F: TBCSSerialize, G: TBCSSerialize, H: TBCSSerialize> TBCSSerialize for (A, B, C, D, E, F, G, H,) {

}

impl<'de, A: TBCSDeserialize<'de>, B: TBCSDeserialize<'de>, C: TBCSDeserialize<'de>, D: TBCSDeserialize<'de>, E: TBCSDeserialize<'de>, F: TBCSDeserialize<'de>, G: TBCSDeserialize<'de>, H: TBCSDeserialize<'de>> TBCSDeserialize<'de> for (A, B, C, D, E, F, G, H,) {

}

impl<A: TBCSSerialize, B: TBCSSerialize, C: TBCSSerialize, D: TBCSSerialize, E: TBCSSerialize, F: TBCSSerialize, G: TBCSSerialize, H: TBCSSerialize, I: TBCSSerialize> TBCSSerialize for (A, B, C, D, E, F, G, H, I,) {

}

impl<'de, A: TBCSDeserialize<'de>, B: TBCSDeserialize<'de>, C: TBCSDeserialize<'de>, D: TBCSDeserialize<'de>, E: TBCSDeserialize<'de>, F: TBCSDeserialize<'de>, G: TBCSDeserialize<'de>, H: TBCSDeserialize<'de>, I: TBCSDeserialize<'de>> TBCSDeserialize<'de> for (A, B, C, D, E, F, G, H, I,) {

}

impl<A: TBCSSerialize, B: TBCSSerialize, C: TBCSSerialize, D: TBCSSerialize, E: TBCSSerialize, F: TBCSSerialize, G: TBCSSerialize, H: TBCSSerialize, I: TBCSSerialize, J: TBCSSerialize> TBCSSerialize for (A, B, C, D, E, F, G, H, I, J,) {

}

impl<'de, A: TBCSDeserialize<'de>, B: TBCSDeserialize<'de>, C: TBCSDeserialize<'de>, D: TBCSDeserialize<'de>, E: TBCSDeserialize<'de>, F: TBCSDeserialize<'de>, G: TBCSDeserialize<'de>, H: TBCSDeserialize<'de>, I: TBCSDeserialize<'de>, J: TBCSDeserialize<'de>> TBCSDeserialize<'de> for (A, B, C, D, E, F, G, H, I, J,) {

}

impl<A: TBCSSerialize, B: TBCSSerialize, C: TBCSSerialize, D: TBCSSerialize, E: TBCSSerialize, F: TBCSSerialize, G: TBCSSerialize, H: TBCSSerialize, I: TBCSSerialize, J: TBCSSerialize, K: TBCSSerialize> TBCSSerialize for (A, B, C, D, E, F, G, H, I, J, K,) {

}

impl<'de, A: TBCSDeserialize<'de>, B: TBCSDeserialize<'de>, C: TBCSDeserialize<'de>, D: TBCSDeserialize<'de>, E: TBCSDeserialize<'de>, F: TBCSDeserialize<'de>, G: TBCSDeserialize<'de>, H: TBCSDeserialize<'de>, I: TBCSDeserialize<'de>, J: TBCSDeserialize<'de>, K: TBCSDeserialize<'de>> TBCSDeserialize<'de> for (A, B, C, D, E, F, G, H, I, J, K,) {

}

impl<A: TBCSSerialize, B: TBCSSerialize, C: TBCSSerialize, D: TBCSSerialize, E: TBCSSerialize, F: TBCSSerialize, G: TBCSSerialize, H: TBCSSerialize, I: TBCSSerialize, J: TBCSSerialize, K: TBCSSerialize, L: TBCSSerialize> TBCSSerialize for (A, B, C, D, E, F, G, H, I, J, K, L,) {

}

impl<'de, A: TBCSDeserialize<'de>, B: TBCSDeserialize<'de>, C: TBCSDeserialize<'de>, D: TBCSDeserialize<'de>, E: TBCSDeserialize<'de>, F: TBCSDeserialize<'de>, G: TBCSDeserialize<'de>, H: TBCSDeserialize<'de>, I: TBCSDeserialize<'de>, J: TBCSDeserialize<'de>, K: TBCSDeserialize<'de>, L: TBCSDeserialize<'de>> TBCSDeserialize<'de> for (A, B, C, D, E, F, G, H, I, J, K, L,) {

}

impl TBCSSerialize for rust_decimal::Decimal {

}

impl<'de> TBCSDeserialize<'de> for rust_decimal::Decimal {

}

impl TBCSSerialize for bigdecimal::BigDecimal {

}

impl<'de> TBCSDeserialize<'de> for bigdecimal::BigDecimal {

}

} // verus!
