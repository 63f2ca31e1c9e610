//! Bytes read and written in order: a cursor over a run of bytes, and a
//! writer that appends to one, integers little-endian throughout.
//!
//! What reading at a cursor comes to is a function of the bytes that
//! remain, [`Parsed`]: the value and what remains behind it, or the
//! failure and where the cursor stood when it came.

use vstd::arithmetic::power::{lemma_pow0, pow};
use vstd::prelude::*;

use crate::error::{permanent, Failure, Result, TransportError};
use crate::text::{decimal, decimal_text};

verus! {

/// What reading from a run of bytes comes to.
pub enum Parsed<T> {
    /// The value, and the bytes behind it.
    Read(T, Seq<u8>),
    /// Why there is no value, and the bytes the cursor was left at.
    Failed(Failure, Seq<u8>),
}

impl<T> Parsed<T> {
    /// That `value` was read, whatever lies behind it.
    pub open spec fn gives(self, value: T) -> bool {
        self matches Parsed::Read(read, _) && read == value
    }

    /// That it was refused with `message`, and trying again will not mend it.
    pub open spec fn refused(self, message: Seq<char>) -> bool {
        self matches Parsed::Failed(failure, _) && failure.message == message && !failure.retryable
    }

    /// Read on from where this left off.
    pub open spec fn and<U>(self, next: spec_fn(T, Seq<u8>) -> Parsed<U>) -> Parsed<U> {
        match self {
            Parsed::Read(value, rest) => next(value, rest),
            Parsed::Failed(failure, rest) => Parsed::Failed(failure, rest),
        }
    }
}

/// That a result, with the bytes its cursor was left at, is what `parsed`
/// says.
pub open spec fn agrees<T: View>(result: Result<T>, rest: Seq<u8>, parsed: Parsed<T::V>) -> bool {
    match (result, parsed) {
        (Ok(value), Parsed::Read(expected, after)) => value@ == expected && rest == after,
        (Err(error), Parsed::Failed(failure, after)) => error@ == failure && rest == after,
        _ => false,
    }
}

/// What an optional value holds.
pub open spec fn held<T: View>(value: Option<T>) -> Option<T::V> {
    match value {
        Some(value) => Some(value@),
        None => None,
    }
}

/// As [`agrees`], for a value that may be absent.
pub open spec fn agrees_held<T: View>(
    result: Result<Option<T>>,
    rest: Seq<u8>,
    parsed: Parsed<Option<T::V>>,
) -> bool {
    match (result, parsed) {
        (Ok(value), Parsed::Read(expected, after)) => held(value) == expected && rest == after,
        (Err(error), Parsed::Failed(failure, after)) => error@ == failure && rest == after,
        _ => false,
    }
}

/// The number that bytes are, the least significant first.
pub open spec fn le_value(bytes: Seq<u8>) -> nat
    decreases bytes.len(),
{
    if bytes.len() == 0 {
        0
    } else {
        bytes[0] as nat + 256 * le_value(bytes.skip(1))
    }
}

/// The low `width` bytes of a number, the least significant first.
pub open spec fn le_bytes(number: nat, width: nat) -> Seq<u8>
    decreases width,
{
    if width == 0 {
        Seq::empty()
    } else {
        seq![(number % 256) as u8] + le_bytes(number / 256, (width - 1) as nat)
    }
}

/// A signed number as the unsigned one of the same `2^32` bit patterns.
pub open spec fn unsigned32(value: i32) -> nat {
    if value < 0 {
        (value + 0x1_0000_0000) as nat
    } else {
        value as nat
    }
}

/// A signed number as the unsigned one of the same `2^64` bit patterns.
pub open spec fn unsigned64(value: i64) -> nat {
    if value < 0 {
        (value + 0x1_0000_0000_0000_0000) as nat
    } else {
        value as nat
    }
}

/// The signed number whose bit pattern an unsigned one has.
pub open spec fn signed32(number: nat) -> i32 {
    if number < 0x8000_0000 {
        number as i32
    } else {
        (number - 0x1_0000_0000) as i32
    }
}

/// The signed number whose bit pattern an unsigned one has.
pub open spec fn signed64(number: nat) -> i64 {
    if number < 0x8000_0000_0000_0000 {
        number as i64
    } else {
        (number - 0x1_0000_0000_0000_0000) as i64
    }
}

/// A number of two bytes, the least significant first.
pub open spec fn u16_bytes(value: u16) -> Seq<u8> {
    le_bytes(value as nat, 2)
}

/// A number of four bytes, the least significant first.
pub open spec fn u32_bytes(value: u32) -> Seq<u8> {
    le_bytes(value as nat, 4)
}

/// A number of eight bytes, the least significant first.
pub open spec fn u64_bytes(value: u64) -> Seq<u8> {
    le_bytes(value as nat, 8)
}

/// A signed number of four bytes, the least significant first.
pub open spec fn i32_bytes(value: i32) -> Seq<u8> {
    le_bytes(unsigned32(value), 4)
}

/// A signed number of eight bytes, the least significant first.
pub open spec fn i64_bytes(value: i64) -> Seq<u8> {
    le_bytes(unsigned64(value), 8)
}

/// That `wanted` bytes were asked for and `left` were left.
pub open spec fn cut_short(wanted: nat, left: nat) -> Failure {
    permanent(
        "a field of "@ + decimal(wanted) + " bytes runs past the "@ + decimal(left) + " left"@,
    )
}

/// The next `length` bytes.
pub open spec fn take(bytes: Seq<u8>, length: nat) -> Parsed<Seq<u8>> {
    if length <= bytes.len() {
        Parsed::Read(bytes.take(length as int), bytes.skip(length as int))
    } else {
        Parsed::Failed(cut_short(length, bytes.len()), bytes)
    }
}

/// Past the next `length` bytes.
pub open spec fn skip(bytes: Seq<u8>, length: nat) -> Parsed<()> {
    take(bytes, length).and(|taken: Seq<u8>, rest: Seq<u8>| Parsed::Read((), rest))
}

/// The next byte.
pub open spec fn byte(bytes: Seq<u8>) -> Parsed<u8> {
    take(bytes, 1).and(|taken: Seq<u8>, rest: Seq<u8>| Parsed::Read(taken[0], rest))
}

/// The number of two bytes at a cursor.
pub open spec fn u16_le(bytes: Seq<u8>) -> Parsed<u16> {
    take(bytes, 2).and(|taken: Seq<u8>, rest: Seq<u8>| Parsed::Read(le_value(taken) as u16, rest))
}

/// The number of four bytes at a cursor.
pub open spec fn u32_le(bytes: Seq<u8>) -> Parsed<u32> {
    take(bytes, 4).and(|taken: Seq<u8>, rest: Seq<u8>| Parsed::Read(le_value(taken) as u32, rest))
}

/// The number of eight bytes at a cursor.
pub open spec fn u64_le(bytes: Seq<u8>) -> Parsed<u64> {
    take(bytes, 8).and(|taken: Seq<u8>, rest: Seq<u8>| Parsed::Read(le_value(taken) as u64, rest))
}

/// The signed number of four bytes at a cursor.
pub open spec fn i32_le(bytes: Seq<u8>) -> Parsed<i32> {
    take(bytes, 4).and(|taken: Seq<u8>, rest: Seq<u8>| Parsed::Read(signed32(le_value(taken)), rest))
}

/// The signed number of eight bytes at a cursor.
pub open spec fn i64_le(bytes: Seq<u8>) -> Parsed<i64> {
    take(bytes, 8).and(|taken: Seq<u8>, rest: Seq<u8>| Parsed::Read(signed64(le_value(taken)), rest))
}

/// A place in a run of bytes.
#[derive(Debug)]
pub struct Cursor<'a> {
    bytes: &'a [u8],
    at: usize,
}

/// A cursor stands for the bytes that remain at it.
impl<'a> View for Cursor<'a> {
    type V = Seq<u8>;

    closed spec fn view(&self) -> Seq<u8> {
        self.bytes@.skip(self.at as int)
    }
}

impl<'a> Cursor<'a> {
    #[verifier::type_invariant]
    closed spec fn in_bounds(self) -> bool {
        self.at <= self.bytes@.len()
    }

    /// At the first of `bytes`.
    pub fn new(bytes: &'a [u8]) -> (cursor: Self)
        ensures
            cursor@ == bytes@,
    {
        let cursor = Cursor { bytes, at: 0 };
        assert(cursor@ =~= bytes@);
        cursor
    }

    /// What remains at the cursor.
    pub fn remaining(&self) -> (rest: &'a [u8])
        ensures
            rest@ == self@,
    {
        proof {
            use_type_invariant(self);
        }
        vstd::slice::slice_subrange(self.bytes, self.at, self.bytes.len())
    }

    /// The next `length` bytes.
    pub fn take(&mut self, length: usize) -> (result: Result<&'a [u8]>)
        ensures
            agrees(result, final(self)@, take(old(self)@, length as nat)),
    {
        proof {
            use_type_invariant(&*self);
        }
        let left: usize = self.bytes.len() - self.at;
        if length > left {
            let mut message = "a field of ".to_string();
            message.append(decimal_text(length as u64).as_str());
            message.append(" bytes runs past the ");
            message.append(decimal_text(left as u64).as_str());
            message.append(" left");
            return Err(TransportError::permanent(message));
        }
        let ghost before = self@;
        let taken = vstd::slice::slice_subrange(self.bytes, self.at, self.at + length);
        assert(taken@ =~= before.take(length as int));
        self.at = self.at + length;
        assert(self@ =~= before.skip(length as int));
        Ok(taken)
    }

    /// Past the next `length` bytes.
    pub fn skip(&mut self, length: usize) -> (result: Result<()>)
        ensures
            agrees(result, final(self)@, skip(old(self)@, length as nat)),
    {
        self.take(length)?;
        Ok(())
    }

    /// The next byte.
    pub fn byte(&mut self) -> (result: Result<u8>)
        ensures
            agrees(result, final(self)@, byte(old(self)@)),
    {
        let taken = self.take(1)?;
        Ok(taken[0])
    }

    /// The next number of two bytes.
    pub fn u16_le(&mut self) -> (result: Result<u16>)
        ensures
            agrees(result, final(self)@, u16_le(old(self)@)),
    {
        let taken = self.take(2)?;
        proof {
            reveal_with_fuel(le_value, 3);
        }
        Ok(taken[0] as u16 + 256 * taken[1] as u16)
    }

    /// The next number of four bytes.
    pub fn u32_le(&mut self) -> (result: Result<u32>)
        ensures
            agrees(result, final(self)@, u32_le(old(self)@)),
    {
        let taken = self.take(4)?;
        Ok(number32(taken))
    }

    /// The next number of eight bytes: also the bit pattern of a double,
    /// which is all of one that is read here.
    pub fn u64_le(&mut self) -> (result: Result<u64>)
        ensures
            agrees(result, final(self)@, u64_le(old(self)@)),
    {
        let taken = self.take(8)?;
        Ok(number64(taken))
    }

    /// The next signed number of four bytes.
    pub fn i32_le(&mut self) -> (result: Result<i32>)
        ensures
            agrees(result, final(self)@, i32_le(old(self)@)),
    {
        let taken = self.take(4)?;
        let number: u32 = number32(taken);
        assert(number < 0x8000_0000 ==> number as i32 == number) by (bit_vector);
        assert(number >= 0x8000_0000 ==> number as i32 == number - 0x1_0000_0000) by (bit_vector);
        Ok(number as i32)
    }

    /// The next signed number of eight bytes.
    pub fn i64_le(&mut self) -> (result: Result<i64>)
        ensures
            agrees(result, final(self)@, i64_le(old(self)@)),
    {
        let taken = self.take(8)?;
        let number: u64 = number64(taken);
        assert(number < 0x8000_0000_0000_0000 ==> number as i64 == number) by (bit_vector);
        assert(number >= 0x8000_0000_0000_0000 ==> number as i64 == number
            - 0x1_0000_0000_0000_0000) by (bit_vector);
        Ok(number as i64)
    }
}

/// The number four bytes are.
fn number32(bytes: &[u8]) -> (number: u32)
    requires
        bytes@.len() == 4,
    ensures
        number == le_value(bytes@),
{
    proof {
        reveal_with_fuel(le_value, 5);
    }
    let b2: u32 = bytes[2] as u32 + 256 * bytes[3] as u32;
    bytes[0] as u32 + 256 * (bytes[1] as u32 + 256 * b2)
}

/// The number eight bytes are.
fn number64(bytes: &[u8]) -> (number: u64)
    requires
        bytes@.len() == 8,
    ensures
        number == le_value(bytes@),
{
    proof {
        reveal_with_fuel(le_value, 9);
    }
    let b6: u64 = bytes[6] as u64 + 256 * bytes[7] as u64;
    let b4: u64 = bytes[4] as u64 + 256 * (bytes[5] as u64 + 256 * b6);
    let b2: u64 = bytes[2] as u64 + 256 * (bytes[3] as u64 + 256 * b4);
    bytes[0] as u64 + 256 * (bytes[1] as u64 + 256 * b2)
}

/// Appending to a run of bytes; each call hands the run back for the next.
pub trait ByteWriter: Sized {
    /// The bytes so far.
    spec fn written(&self) -> Seq<u8>;

    fn byte(&mut self, value: u8) -> (out: &mut Self)
        ensures
            out.written() == old(self).written() + seq![value],
            *final(self) == *final(out),
    ;

    fn bytes(&mut self, value: &[u8]) -> (out: &mut Self)
        ensures
            out.written() == old(self).written() + value@,
            *final(self) == *final(out),
    ;

    fn u16_le(&mut self, value: u16) -> (out: &mut Self)
        ensures
            out.written() == old(self).written() + u16_bytes(value),
            *final(self) == *final(out),
    ;

    fn u32_le(&mut self, value: u32) -> (out: &mut Self)
        ensures
            out.written() == old(self).written() + u32_bytes(value),
            *final(self) == *final(out),
    ;

    /// A double, by its bit pattern.
    fn u64_le(&mut self, value: u64) -> (out: &mut Self)
        ensures
            out.written() == old(self).written() + u64_bytes(value),
            *final(self) == *final(out),
    ;

    fn i32_le(&mut self, value: i32) -> (out: &mut Self)
        ensures
            out.written() == old(self).written() + i32_bytes(value),
            *final(self) == *final(out),
    ;

    fn i64_le(&mut self, value: i64) -> (out: &mut Self)
        ensures
            out.written() == old(self).written() + i64_bytes(value),
            *final(self) == *final(out),
    ;
}

impl ByteWriter for Vec<u8> {
    open spec fn written(&self) -> Seq<u8> {
        self@
    }

    fn byte(&mut self, value: u8) -> (out: &mut Self) {
        let ghost before = self@;
        self.push(value);
        assert(self@ =~= before + seq![value]);
        self
    }

    fn bytes(&mut self, value: &[u8]) -> (out: &mut Self) {
        let ghost before = self@;
        self.extend_from_slice(value);
        assert(self@ =~= before + value@);
        self
    }

    fn u16_le(&mut self, value: u16) -> (out: &mut Self) {
        let ghost before = self@;
        proof {
            reveal_with_fuel(le_bytes, 3);
        }
        self.push((value % 256) as u8);
        self.push((value / 256) as u8);
        assert(self@ =~= before + u16_bytes(value));
        self
    }

    fn u32_le(&mut self, value: u32) -> (out: &mut Self) {
        let ghost before = self@;
        proof {
            reveal_with_fuel(le_bytes, 5);
        }
        let v1: u32 = value / 256;
        let v2: u32 = v1 / 256;
        let v3: u32 = v2 / 256;
        self.push((value % 256) as u8);
        self.push((v1 % 256) as u8);
        self.push((v2 % 256) as u8);
        self.push((v3 % 256) as u8);
        assert(self@ =~= before + u32_bytes(value));
        self
    }

    fn u64_le(&mut self, value: u64) -> (out: &mut Self) {
        let ghost before = self@;
        proof {
            reveal_with_fuel(le_bytes, 9);
        }
        let v1: u64 = value / 256;
        let v2: u64 = v1 / 256;
        let v3: u64 = v2 / 256;
        let v4: u64 = v3 / 256;
        let v5: u64 = v4 / 256;
        let v6: u64 = v5 / 256;
        let v7: u64 = v6 / 256;
        self.push((value % 256) as u8);
        self.push((v1 % 256) as u8);
        self.push((v2 % 256) as u8);
        self.push((v3 % 256) as u8);
        self.push((v4 % 256) as u8);
        self.push((v5 % 256) as u8);
        self.push((v6 % 256) as u8);
        self.push((v7 % 256) as u8);
        assert(self@ =~= before + u64_bytes(value));
        self
    }

    fn i32_le(&mut self, value: i32) -> (out: &mut Self) {
        assert(value < 0 ==> value as u32 == value + 0x1_0000_0000) by (bit_vector);
        self.u32_le(value as u32)
    }

    fn i64_le(&mut self, value: i64) -> (out: &mut Self) {
        assert(value < 0 ==> value as u64 == value + 0x1_0000_0000_0000_0000) by (bit_vector);
        self.u64_le(value as u64)
    }
}

/// Joining is associative: what a writer appends piece by piece is one
/// run, and what a cursor reads off the front leaves the rest.
pub broadcast proof fn lemma_join(a: Seq<u8>, b: Seq<u8>, c: Seq<u8>)
    ensures
        #[trigger] ((a + b) + c) == a + (b + c),
{
    assert((a + b) + c =~= a + (b + c));
}

/// Nothing behind bytes is the bytes.
pub broadcast proof fn lemma_join_nothing(a: Seq<u8>)
    ensures
        #[trigger] (a + Seq::<u8>::empty()) == a,
{
    assert(a + Seq::<u8>::empty() =~= a);
}

/// Nothing before bytes is the bytes.
pub broadcast proof fn lemma_nothing_join(a: Seq<u8>)
    ensures
        #[trigger] (Seq::<u8>::empty() + a) == a,
{
    assert(Seq::<u8>::empty() + a =~= a);
}

/// A number written in a width is that many bytes.
pub broadcast proof fn lemma_le_bytes_len(number: nat, width: nat)
    ensures
        #[trigger] le_bytes(number, width).len() == width,
    decreases width,
{
    if width > 0 {
        lemma_le_bytes_len(number / 256, (width - 1) as nat);
    }
}

/// A number that fits in its width is the number its bytes are.
pub proof fn lemma_le_reads_back(number: nat, width: nat)
    requires
        number < pow(256, width),
    ensures
        le_value(le_bytes(number, width)) == number,
    decreases width,
{
    if width == 0 {
        lemma_pow0(256);
    } else {
        let rest = (width - 1) as nat;
        reveal(pow);
        assert(pow(256, width) == 256 * pow(256, rest));
        assert(number / 256 < pow(256, rest)) by (nonlinear_arith)
            requires
                number < 256 * pow(256, rest),
        ;
        lemma_le_reads_back(number / 256, rest);
        assert(le_bytes(number, width).skip(1) =~= le_bytes(number / 256, rest));
    }
}

/// What stands in front is what is taken.
pub broadcast proof fn lemma_take_front(front: Seq<u8>, rest: Seq<u8>, length: nat)
    requires
        length == front.len(),
    ensures
        #[trigger] take(front + rest, length) == Parsed::Read(front, rest),
{
    assert((front + rest).take(length as int) =~= front);
    assert((front + rest).skip(length as int) =~= rest);
}

/// A byte reads back, and nothing behind it is touched.
pub broadcast proof fn law_byte_reads_back(value: u8, rest: Seq<u8>)
    ensures
        #[trigger] byte(seq![value] + rest) == Parsed::Read(value, rest),
{
    lemma_take_front(seq![value], rest, 1);
}

/// A number of two bytes reads back, and nothing behind it is touched.
pub broadcast proof fn law_u16_reads_back(value: u16, rest: Seq<u8>)
    ensures
        #[trigger] u16_le(u16_bytes(value) + rest) == Parsed::Read(value, rest),
{
    lemma_le_bytes_len(value as nat, 2);
    lemma_take_front(u16_bytes(value), rest, 2);
    assert(pow(256, 2) == 0x1_0000) by {
        reveal_with_fuel(pow, 3);
    }
    lemma_le_reads_back(value as nat, 2);
}

/// A number of four bytes reads back, and nothing behind it is touched.
pub broadcast proof fn law_u32_reads_back(value: u32, rest: Seq<u8>)
    ensures
        #[trigger] u32_le(u32_bytes(value) + rest) == Parsed::Read(value, rest),
{
    lemma_le_bytes_len(value as nat, 4);
    lemma_take_front(u32_bytes(value), rest, 4);
    assert(pow(256, 4) == 0x1_0000_0000) by {
        reveal_with_fuel(pow, 5);
    }
    lemma_le_reads_back(value as nat, 4);
}

/// A number of eight bytes reads back, and nothing behind it is touched.
pub broadcast proof fn law_u64_reads_back(value: u64, rest: Seq<u8>)
    ensures
        #[trigger] u64_le(u64_bytes(value) + rest) == Parsed::Read(value, rest),
{
    lemma_le_bytes_len(value as nat, 8);
    lemma_take_front(u64_bytes(value), rest, 8);
    assert(pow(256, 8) == 0x1_0000_0000_0000_0000) by {
        reveal_with_fuel(pow, 9);
    }
    lemma_le_reads_back(value as nat, 8);
}

/// A signed number of four bytes reads back, and nothing behind it is touched.
pub broadcast proof fn law_i32_reads_back(value: i32, rest: Seq<u8>)
    ensures
        #[trigger] i32_le(i32_bytes(value) + rest) == Parsed::Read(value, rest),
{
    lemma_le_bytes_len(unsigned32(value), 4);
    lemma_take_front(i32_bytes(value), rest, 4);
    assert(pow(256, 4) == 0x1_0000_0000) by {
        reveal_with_fuel(pow, 5);
    }
    lemma_le_reads_back(unsigned32(value), 4);
}

/// A signed number of eight bytes reads back, and nothing behind it is touched.
pub broadcast proof fn law_i64_reads_back(value: i64, rest: Seq<u8>)
    ensures
        #[trigger] i64_le(i64_bytes(value) + rest) == Parsed::Read(value, rest),
{
    lemma_le_bytes_len(unsigned64(value), 8);
    lemma_take_front(i64_bytes(value), rest, 8);
    assert(pow(256, 8) == 0x1_0000_0000_0000_0000) by {
        reveal_with_fuel(pow, 9);
    }
    lemma_le_reads_back(unsigned64(value), 8);
}

/// Numbers stand with their least significant byte first.
pub proof fn law_least_significant_byte_is_first(a: u16, b: u32, c: u64)
    ensures
        u16_bytes(a) == seq![(a % 256) as u8, (a / 256) as u8],
        u32_bytes(b) == seq![
            (b % 256) as u8,
            (b / 256 % 256) as u8,
            (b / 65_536 % 256) as u8,
            (b / 16_777_216) as u8,
        ],
        u64_bytes(c) == u32_bytes((c % 0x1_0000_0000) as u32) + u32_bytes(
            (c / 0x1_0000_0000) as u32,
        ),
{
    reveal_with_fuel(le_bytes, 5);
    assert(u16_bytes(a) =~= seq![(a % 256) as u8, (a / 256) as u8]);
    let b1 = (b / 256) as u32;
    let b2 = (b1 / 256) as u32;
    assert(b2 == b / 65_536 && b2 / 256 == b / 16_777_216);
    assert(u32_bytes(b) =~= seq![
        (b % 256) as u8,
        (b / 256 % 256) as u8,
        (b / 65_536 % 256) as u8,
        (b / 16_777_216) as u8,
    ]);
    lemma_wide_bytes(c);
}

proof fn lemma_wide_bytes(c: u64)
    ensures
        u64_bytes(c) == u32_bytes((c % 0x1_0000_0000) as u32) + u32_bytes(
            (c / 0x1_0000_0000) as u32,
        ),
{
    let low = c as int % 0x1_0000_0000;
    let high = c as int / 0x1_0000_0000;
    let c1 = c as int / 256;
    let c2 = c1 / 256;
    let c3 = c2 / 256;
    let c4 = c3 / 256;
    let l1 = low / 256;
    let l2 = l1 / 256;
    let l3 = l2 / 256;
    assert(c1 == high * 0x100_0000 + l1 && c as int % 256 == low % 256);
    assert(c2 == high * 0x1_0000 + l2 && c1 % 256 == l1 % 256);
    assert(c3 == high * 0x100 + l3 && c2 % 256 == l2 % 256);
    assert(c4 == high && c3 % 256 == l3 && l3 < 256);
    let top = le_bytes(high as nat, 4);
    assert(le_bytes(c3 as nat, 5) == seq![(c3 % 256) as u8] + top);
    assert(le_bytes(c2 as nat, 6) == seq![(c2 % 256) as u8] + le_bytes(c3 as nat, 5));
    assert(le_bytes(c1 as nat, 7) == seq![(c1 % 256) as u8] + le_bytes(c2 as nat, 6));
    assert(le_bytes(l3 as nat, 1) =~= seq![(l3 % 256) as u8]) by {
        reveal_with_fuel(le_bytes, 2);
    }
    assert(le_bytes(l2 as nat, 2) == seq![(l2 % 256) as u8] + le_bytes(l3 as nat, 1));
    assert(le_bytes(l1 as nat, 3) == seq![(l1 % 256) as u8] + le_bytes(l2 as nat, 2));
    assert(u64_bytes(c) =~= u32_bytes(low as u32) + top);
}

/// A negative number stands as the one that it and the width's power of two
/// come to, any other as itself.
pub proof fn law_negative_number_is_its_complement(a: i32, b: i64)
    ensures
        a >= 0 ==> i32_bytes(a) == u32_bytes(a as u32),
        a < 0 ==> i32_bytes(a) == u32_bytes((a + 0x1_0000_0000) as u32),
        b >= 0 ==> i64_bytes(b) == u64_bytes(b as u64),
        b < 0 ==> i64_bytes(b) == u64_bytes((b + 0x1_0000_0000_0000_0000) as u64),
{
}

/// Any bytes are taken as they stand where there are enough, and else are a
/// failure that trying again will not mend, which says how many were wanted
/// and left.
pub proof fn law_bytes_are_taken_as_they_stand(bytes: Seq<u8>, length: nat)
    ensures
        take(bytes, length) matches Parsed::Read(taken, rest) ==> taken.len() == length && taken
            + rest == bytes,
        take(bytes, length) is Read <==> length <= bytes.len(),
        take(bytes, length) matches Parsed::Failed(failure, rest) ==> rest == bytes
            && !failure.retryable && failure.message == "a field of "@ + decimal(length)
            + " bytes runs past the "@ + decimal(bytes.len()) + " left"@,
{
    if length <= bytes.len() {
        assert(bytes.take(length as int) + bytes.skip(length as int) =~= bytes);
    }
}

/// A number of which a byte is missing is a failure.
pub proof fn law_cut_number_is_an_error(bytes: Seq<u8>)
    ensures
        byte(bytes) is Failed <==> bytes.len() < 1,
        u16_le(bytes) is Failed <==> bytes.len() < 2,
        u32_le(bytes) is Failed <==> bytes.len() < 4,
        u64_le(bytes) is Failed <==> bytes.len() < 8,
        i32_le(bytes) is Failed <==> bytes.len() < 4,
        i64_le(bytes) is Failed <==> bytes.len() < 8,
{
}

} // verus!
