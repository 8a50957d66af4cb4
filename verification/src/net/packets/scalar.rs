//! The fixed-width values of the format and their byte layouts.

use vstd::prelude::*;
use crate::net::packets::le::{
    le_bytes, le_value, lemma_le_bytes_len, lemma_le_value_of_bytes, lemma_pow256_values,
    signed_of, unsigned_of,
};

verus! {

/// A byte is read as `true` unless it is zero.
pub open spec fn bool_from_le(bytes: Seq<u8>) -> bool {
    bytes[0] != 0
}

/// `true` is written as 1, `false` as 0.
pub open spec fn bool_to_le(value: bool) -> Seq<u8> {
    seq![if value { 1u8 } else { 0u8 }]
}

/// The `u8` that byte spell, least significant byte first.
pub open spec fn u8_from_le(bytes: Seq<u8>) -> u8 {
    le_value(bytes) as u8
}

/// The byte of a `u8`, least significant byte first.
pub open spec fn u8_to_le(value: u8) -> Seq<u8> {
    le_bytes(value as nat, 1)
}

/// The `i8` that byte spell in two's complement, least significant byte first.
pub open spec fn i8_from_le(bytes: Seq<u8>) -> i8 {
    signed_of(le_value(bytes), 1) as i8
}

/// The byte of a `i8` in two's complement, least significant byte first.
pub open spec fn i8_to_le(value: i8) -> Seq<u8> {
    le_bytes(unsigned_of(value as int, 1), 1)
}

/// The `u16` that 2 bytes spell, least significant byte first.
pub open spec fn u16_from_le(bytes: Seq<u8>) -> u16 {
    le_value(bytes) as u16
}

/// The 2 bytes of a `u16`, least significant byte first.
pub open spec fn u16_to_le(value: u16) -> Seq<u8> {
    le_bytes(value as nat, 2)
}

/// The `i16` that 2 bytes spell in two's complement, least significant byte first.
pub open spec fn i16_from_le(bytes: Seq<u8>) -> i16 {
    signed_of(le_value(bytes), 2) as i16
}

/// The 2 bytes of a `i16` in two's complement, least significant byte first.
pub open spec fn i16_to_le(value: i16) -> Seq<u8> {
    le_bytes(unsigned_of(value as int, 2), 2)
}

/// The `u32` that 4 bytes spell, least significant byte first.
pub open spec fn u32_from_le(bytes: Seq<u8>) -> u32 {
    le_value(bytes) as u32
}

/// The 4 bytes of a `u32`, least significant byte first.
pub open spec fn u32_to_le(value: u32) -> Seq<u8> {
    le_bytes(value as nat, 4)
}

/// The `i32` that 4 bytes spell in two's complement, least significant byte first.
pub open spec fn i32_from_le(bytes: Seq<u8>) -> i32 {
    signed_of(le_value(bytes), 4) as i32
}

/// The 4 bytes of a `i32` in two's complement, least significant byte first.
pub open spec fn i32_to_le(value: i32) -> Seq<u8> {
    le_bytes(unsigned_of(value as int, 4), 4)
}

/// The `u64` that 8 bytes spell, least significant byte first.
pub open spec fn u64_from_le(bytes: Seq<u8>) -> u64 {
    le_value(bytes) as u64
}

/// The 8 bytes of a `u64`, least significant byte first.
pub open spec fn u64_to_le(value: u64) -> Seq<u8> {
    le_bytes(value as nat, 8)
}

/// The `i64` that 8 bytes spell in two's complement, least significant byte first.
pub open spec fn i64_from_le(bytes: Seq<u8>) -> i64 {
    signed_of(le_value(bytes), 8) as i64
}

/// The 8 bytes of a `i64` in two's complement, least significant byte first.
pub open spec fn i64_to_le(value: i64) -> Seq<u8> {
    le_bytes(unsigned_of(value as int, 8), 8)
}

/// The `u128` that 16 bytes spell, least significant byte first.
pub open spec fn u128_from_le(bytes: Seq<u8>) -> u128 {
    le_value(bytes) as u128
}

/// The 16 bytes of a `u128`, least significant byte first.
pub open spec fn u128_to_le(value: u128) -> Seq<u8> {
    le_bytes(value as nat, 16)
}

/// The `i128` that 16 bytes spell in two's complement, least significant byte first.
pub open spec fn i128_from_le(bytes: Seq<u8>) -> i128 {
    signed_of(le_value(bytes), 16) as i128
}

/// The 16 bytes of a `i128` in two's complement, least significant byte first.
pub open spec fn i128_to_le(value: i128) -> Seq<u8> {
    le_bytes(unsigned_of(value as int, 16), 16)
}

/// Any single byte `v` reads as the truth value `v != 0`.
pub proof fn lemma_bool_of_byte(v: u8)
    ensures
        bool_from_le(seq![v]) == (v != 0),
{
}

/// A truth value takes one byte and is read back unchanged.
pub proof fn lemma_bool_round_trip(value: bool)
    ensures
        bool_to_le(value).len() == 1,
        bool_from_le(bool_to_le(value)) == value,
{
}

/// Every `u8` takes byte and is read back unchanged.
pub proof fn lemma_u8_round_trip(value: u8)
    ensures
        u8_to_le(value).len() == 1,
        u8_from_le(u8_to_le(value)) == value,
{
    lemma_pow256_values();
    lemma_le_bytes_len(value as nat, 1);
    lemma_le_value_of_bytes(value as nat, 1);
}

/// Every `i8` takes byte and is read back unchanged.
pub proof fn lemma_i8_round_trip(value: i8)
    ensures
        i8_to_le(value).len() == 1,
        i8_from_le(i8_to_le(value)) == value,
{
    lemma_pow256_values();
    lemma_le_bytes_len(unsigned_of(value as int, 1), 1);
    lemma_le_value_of_bytes(unsigned_of(value as int, 1), 1);
}

/// Every `u16` takes 2 bytes and is read back unchanged.
pub proof fn lemma_u16_round_trip(value: u16)
    ensures
        u16_to_le(value).len() == 2,
        u16_from_le(u16_to_le(value)) == value,
{
    lemma_pow256_values();
    lemma_le_bytes_len(value as nat, 2);
    lemma_le_value_of_bytes(value as nat, 2);
}

/// Every `i16` takes 2 bytes and is read back unchanged.
pub proof fn lemma_i16_round_trip(value: i16)
    ensures
        i16_to_le(value).len() == 2,
        i16_from_le(i16_to_le(value)) == value,
{
    lemma_pow256_values();
    lemma_le_bytes_len(unsigned_of(value as int, 2), 2);
    lemma_le_value_of_bytes(unsigned_of(value as int, 2), 2);
}

/// Every `u32` takes 4 bytes and is read back unchanged.
pub proof fn lemma_u32_round_trip(value: u32)
    ensures
        u32_to_le(value).len() == 4,
        u32_from_le(u32_to_le(value)) == value,
{
    lemma_pow256_values();
    lemma_le_bytes_len(value as nat, 4);
    lemma_le_value_of_bytes(value as nat, 4);
}

/// Every `i32` takes 4 bytes and is read back unchanged.
pub proof fn lemma_i32_round_trip(value: i32)
    ensures
        i32_to_le(value).len() == 4,
        i32_from_le(i32_to_le(value)) == value,
{
    lemma_pow256_values();
    lemma_le_bytes_len(unsigned_of(value as int, 4), 4);
    lemma_le_value_of_bytes(unsigned_of(value as int, 4), 4);
}

/// Every `u64` takes 8 bytes and is read back unchanged.
pub proof fn lemma_u64_round_trip(value: u64)
    ensures
        u64_to_le(value).len() == 8,
        u64_from_le(u64_to_le(value)) == value,
{
    lemma_pow256_values();
    lemma_le_bytes_len(value as nat, 8);
    lemma_le_value_of_bytes(value as nat, 8);
}

/// Every `i64` takes 8 bytes and is read back unchanged.
pub proof fn lemma_i64_round_trip(value: i64)
    ensures
        i64_to_le(value).len() == 8,
        i64_from_le(i64_to_le(value)) == value,
{
    lemma_pow256_values();
    lemma_le_bytes_len(unsigned_of(value as int, 8), 8);
    lemma_le_value_of_bytes(unsigned_of(value as int, 8), 8);
}

/// Every `u128` takes 16 bytes and is read back unchanged.
pub proof fn lemma_u128_round_trip(value: u128)
    ensures
        u128_to_le(value).len() == 16,
        u128_from_le(u128_to_le(value)) == value,
{
    lemma_pow256_values();
    lemma_le_bytes_len(value as nat, 16);
    lemma_le_value_of_bytes(value as nat, 16);
}

/// Every `i128` takes 16 bytes and is read back unchanged.
pub proof fn lemma_i128_round_trip(value: i128)
    ensures
        i128_to_le(value).len() == 16,
        i128_from_le(i128_to_le(value)) == value,
{
    lemma_pow256_values();
    lemma_le_bytes_len(unsigned_of(value as int, 16), 16);
    lemma_le_value_of_bytes(unsigned_of(value as int, 16), 16);
}

} // verus!
