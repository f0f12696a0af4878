//! Low-level binary reading and writing: little-endian integers, the
//! FileGDB variable-length integers (unsigned LEB128 and the ESRI signed
//! form) and UTF-16 text.
use vstd::prelude::*;
use vstd::arithmetic::power2::pow2;
use crate::error::{GdbError, format_error, error_text};
use crate::value::{decimal, push_decimal};
use crate::text::to_string;

verus! {

// ---------------------------------------------------------------------------
// Mathematical model of the encodings
// ---------------------------------------------------------------------------

/// `256^n`.
pub open spec fn pow256(n: nat) -> nat
    decreases n,
{
    if n == 0 { 1 } else { 256 * pow256((n - 1) as nat) }
}

/// `128^n`.
pub open spec fn pow128(n: nat) -> nat
    decreases n,
{
    if n == 0 { 1 } else { 128 * pow128((n - 1) as nat) }
}

/// The unsigned little-endian value of a byte sequence (first byte least significant).
pub open spec fn le_value(s: Seq<u8>) -> nat
    decreases s.len(),
{
    if s.len() == 0 { 0 } else { (s[0] as nat) + 256 * le_value(s.drop_first()) }
}

/// The two's complement reading of an unsigned `bits`-wide value.
pub open spec fn to_signed(u: nat, bits: nat) -> int {
    if u >= pow2((bits - 1) as nat) { u - pow2(bits) } else { u as int }
}

/// Length of the first group of 7-bit bytes of `s`: the bytes up to and including the
/// first one whose high bit is clear, when that byte comes within the first `max` bytes.
pub open spec fn leb_group_len(s: Seq<u8>, max: nat) -> Option<nat>
    decreases s.len(),
{
    if max == 0 || s.len() == 0 {
        None
    } else if s[0] < 128 {
        Some(1)
    } else {
        match leb_group_len(s.drop_first(), (max - 1) as nat) {
            Some(k) => Some(k + 1),
            None => None,
        }
    }
}

/// The value carried by the low 7 bits of the first `k` bytes, least significant first.
pub open spec fn leb_value(s: Seq<u8>, k: nat) -> nat
    decreases k,
{
    if k == 0 || s.len() == 0 { 0 } else { ((s[0] % 128) as nat) + 128 * leb_value(s.drop_first(), (k - 1) as nat) }
}

/// The unsigned LEB128 encoding of `v` (the shortest one).
pub open spec fn leb_encode(v: nat) -> Seq<u8>
    decreases v,
{
    if v < 128 { seq![v as u8] } else { seq![(v % 128 + 128) as u8] + leb_encode(v / 128) }
}

/// The ESRI signed variable-length encoding of `delta`: the first byte holds 6 bits of the
/// magnitude, the sign in bit 6 and a continuation flag in bit 7; the rest of the magnitude
/// follows as an unsigned LEB128 group.
pub open spec fn esri_encode(delta: int) -> Seq<u8> {
    let mag: nat = if delta < 0 { (-delta) as nat } else { delta as nat };
    let first: nat = mag % 64 + (if delta < 0 { 64nat } else { 0nat }) + (if mag >= 64 { 128nat } else { 0nat });
    if mag >= 64 { seq![first as u8] + leb_encode(mag / 64) } else { seq![first as u8] }
}

/// The number of bytes that an ESRI signed variable-length value takes at the start of `s`,
/// if it is complete (the continuation group holds at most nine bytes).
pub open spec fn esri_len(s: Seq<u8>) -> Option<nat> {
    if s.len() == 0 {
        None
    } else if s[0] < 128 {
        Some(1)
    } else {
        match leb_group_len(s.drop_first(), 9) {
            Some(k) => Some(k + 1),
            None => None,
        }
    }
}

/// The magnitude carried by a complete ESRI signed value at the start of `s`.
pub open spec fn esri_magnitude(s: Seq<u8>) -> nat {
    if s[0] < 128 {
        (s[0] % 64) as nat
    } else {
        ((s[0] % 64) as nat) + 64 * leb_value(s.drop_first(), (esri_len(s).unwrap() - 1) as nat)
    }
}

/// Whether the sign bit of a complete ESRI signed value at the start of `s` is set.
pub open spec fn esri_negative(s: Seq<u8>) -> bool {
    (s[0] / 64) % 2 == 1
}

/// The result of adding the ESRI signed value at the start of `s` to `acc`,
/// in 64-bit two's complement arithmetic.
pub open spec fn esri_apply(s: Seq<u8>, acc: i64) -> i64 {
    let m = esri_magnitude(s) as int % 0x1_0000_0000_0000_0000;
    if esri_negative(s) {
        vstd::wrapping::i64_specs::signed_crop(acc - m)
    } else {
        vstd::wrapping::i64_specs::signed_crop(acc + m)
    }
}

// ---------------------------------------------------------------------------
// Lemmas on the model
// ---------------------------------------------------------------------------

/// Extending the group by one byte adds that byte's payload at its weight.
pub proof fn lemma_leb_value_step(s: Seq<u8>, i: nat)
    requires
        i < s.len(),
    ensures
        leb_value(s, i + 1) == leb_value(s, i) + (s[i as int] % 128) * pow128(i),
    decreases i,
{
    if i == 0 {
        assert(leb_value(s.drop_first(), 0) == 0);
        assert(pow128(0) == 1);
    } else {
        let x = (s[i as int] % 128) as nat;
        let a = (s[0] % 128) as nat;
        let l0 = leb_value(s.drop_first(), (i - 1) as nat);
        let p0 = pow128((i - 1) as nat);
        lemma_leb_value_step(s.drop_first(), (i - 1) as nat);
        assert(s.drop_first()[(i - 1) as int] == s[i as int]);
        assert(leb_value(s, i + 1) == (s[0] % 128) + 128 * leb_value(s.drop_first(), i));
        assert(leb_value(s, i) == (s[0] % 128) + 128 * leb_value(s.drop_first(), (i - 1) as nat));
        assert(pow128(i) == 128 * pow128((i - 1) as nat));
        assert(a + 128 * (l0 + x * p0) == (a + 128 * l0) + x * (128 * p0)) by (nonlinear_arith);
    }
}

/// The group ends at the first byte whose high bit is clear.
pub proof fn lemma_leb_len_some(s: Seq<u8>, max: nat, k: nat)
    requires
        1 <= k <= max,
        k <= s.len(),
        s[k - 1] < 128,
        forall|j: int| 0 <= j < k - 1 ==> s[j] >= 128,
    ensures
        leb_group_len(s, max) == Some(k),
    decreases k,
{
    if k > 1 {
        assert forall|j: int| 0 <= j < k - 2 implies s.drop_first()[j] >= 128 by {
            assert(s.drop_first()[j] == s[j + 1]);
        }
        assert(s.drop_first()[k - 2] == s[k - 1]);
        lemma_leb_len_some(s.drop_first(), (max - 1) as nat, (k - 1) as nat);
    }
}

/// With no terminating byte among the first `n` bytes, where `n` is the limit or all of `s`,
/// there is no group.
pub proof fn lemma_leb_len_none(s: Seq<u8>, max: nat, n: nat)
    requires
        n <= max,
        n <= s.len(),
        n == max || n == s.len(),
        forall|j: int| 0 <= j < n ==> s[j] >= 128,
    ensures
        leb_group_len(s, max) is None,
    decreases n,
{
    if n > 0 {
        assert forall|j: int| 0 <= j < n - 1 implies s.drop_first()[j] >= 128 by {
            assert(s.drop_first()[j] == s[j + 1]);
        }
        lemma_leb_len_none(s.drop_first(), (max - 1) as nat, (n - 1) as nat);
    }
}

/// The group, when there is one, is a prefix whose bytes all continue but the last.
pub proof fn lemma_leb_len_shape(s: Seq<u8>, max: nat)
    requires
        leb_group_len(s, max) is Some,
    ensures
        ({
            let k = leb_group_len(s, max).unwrap();
            &&& 1 <= k <= max
            &&& k <= s.len()
            &&& s[k - 1] < 128
            &&& forall|j: int| 0 <= j < k - 1 ==> s[j] >= 128
        }),
    decreases s.len(),
{
    if s[0] >= 128 {
        lemma_leb_len_shape(s.drop_first(), (max - 1) as nat);
        let k = leb_group_len(s, max).unwrap();
        assert forall|j: int| 0 <= j < k - 1 implies s[j] >= 128 by {
            if j > 0 {
                assert(s[j] == s.drop_first()[j - 1]);
            }
        }
        assert(s[k - 1] == s.drop_first()[k - 2]);
    }
}

/// Only the first `k` bytes matter to the group value.
pub proof fn lemma_leb_value_prefix(s: Seq<u8>, t: Seq<u8>, k: nat)
    requires
        k <= s.len(),
        k <= t.len(),
        s.subrange(0, k as int) == t.subrange(0, k as int),
    ensures
        leb_value(s, k) == leb_value(t, k),
    decreases k,
{
    if k > 0 {
        assert(s[0] == s.subrange(0, k as int)[0]);
        assert(t[0] == t.subrange(0, k as int)[0]);
        assert(s.drop_first().subrange(0, k - 1) == s.subrange(0, k as int).drop_first());
        assert(t.drop_first().subrange(0, k - 1) == t.subrange(0, k as int).drop_first());
        lemma_leb_value_prefix(s.drop_first(), t.drop_first(), (k - 1) as nat);
    }
}

/// Decoding the LEB128 encoding of `v`, followed by anything, gives back `v`.
pub proof fn lemma_leb_roundtrip(v: nat, rest: Seq<u8>, max: nat)
    requires
        leb_encode(v).len() <= max,
    ensures
        leb_group_len(leb_encode(v) + rest, max) == Some(leb_encode(v).len()),
        leb_value(leb_encode(v) + rest, leb_encode(v).len()) == v,
    decreases v,
{
    let e = leb_encode(v);
    let s = e + rest;
    if v < 128 {
        assert(s[0] == v as u8);
        assert(leb_value(s.drop_first(), 0) == 0);
    } else {
        let tail = leb_encode(v / 128);
        assert(e == seq![(v % 128 + 128) as u8] + tail);
        assert(s.drop_first() == tail + rest);
        assert(s[0] == (v % 128 + 128) as u8);
        lemma_leb_roundtrip(v / 128, rest, (max - 1) as nat);
        assert((s[0] % 128) as nat == v % 128);
    }
}

/// The LEB128 encoding of a value below `128^n` takes at most `n` bytes.
pub proof fn lemma_leb_encode_len(v: nat, n: nat)
    requires
        n >= 1,
        v < pow128(n),
    ensures
        leb_encode(v).len() <= n,
    decreases v,
{
    if v >= 128 {
        assert(pow128(n) == 128 * pow128((n - 1) as nat));
        assert(v / 128 < pow128((n - 1) as nat)) by (nonlinear_arith)
            requires
                v < 128 * pow128((n - 1) as nat),
        ;
        if n == 1 {
            assert(pow128(0) == 1);
        } else {
            lemma_leb_encode_len(v / 128, (n - 1) as nat);
        }
    }
}

/// `128^n` as a power of two.
pub proof fn lemma_pow128_pow2(n: nat)
    ensures
        pow128(n) == pow2(7 * n),
    decreases n,
{
    vstd::arithmetic::power2::lemma2_to64();
    if n > 0 {
        lemma_pow128_pow2((n - 1) as nat);
        vstd::arithmetic::power2::lemma_pow2_adds(7 * (n - 1) as nat, 7);
        assert(7 * n == 7 * (n - 1) as nat + 7);
    }
}

/// Small powers used by the codecs.
pub proof fn lemma_pow_values()
    ensures
        pow128(0) == 1,
        pow128(1) == 128,
        pow128(8) == 0x100_0000_0000_0000,
        pow128(9) == 0x8000_0000_0000_0000,
        pow128(10) == 0x4_0000_0000_0000_0000_0,
        pow256(0) == 1,
        pow256(1) == 0x100,
        pow256(2) == 0x1_0000,
        pow256(4) == 0x1_0000_0000,
        pow256(8) == 0x1_0000_0000_0000_0000,
        pow2(7) == 0x80,
        pow2(8) == 0x100,
        pow2(15) == 0x8000,
        pow2(16) == 0x1_0000,
        pow2(31) == 0x8000_0000,
        pow2(32) == 0x1_0000_0000,
        pow2(63) == 0x8000_0000_0000_0000,
        pow2(64) == 0x1_0000_0000_0000_0000,
{
    reveal_with_fuel(pow128, 11);
    reveal_with_fuel(pow256, 9);
    vstd::arithmetic::power2::lemma2_to64();
    vstd::arithmetic::power2::lemma2_to64_rest();
}

// ---------------------------------------------------------------------------
// Reader
// ---------------------------------------------------------------------------

/// A little-endian value of `n` bytes is below `256^n`.
pub proof fn lemma_le_value_bound(s: Seq<u8>)
    ensures
        le_value(s) < pow256(s.len()),
    decreases s.len(),
{
    if s.len() > 0 {
        lemma_le_value_bound(s.drop_first());
    }
}

/// The bytes of `s` from position `p` on (none when `p` is past the end).
pub open spec fn rest_at(s: Seq<u8>, p: nat) -> Seq<u8> {
    if p <= s.len() { s.subrange(p as int, s.len() as int) } else { Seq::empty() }
}

/// An unsigned variable-length integer at position `p` of `s`: its value and the position
/// after it.
pub open spec fn varuint_at(s: Seq<u8>, p: nat) -> Option<(u64, nat)> {
    let r = rest_at(s, p);
    match leb_group_len(r, 10) {
        Some(k) => Some(((leb_value(r, k) % 0x1_0000_0000_0000_0000) as u64, p + k)),
        None => None,
    }
}

/// An ESRI signed variable-length integer at position `p` of `s`, added to `acc`: the sum
/// and the position after it.
pub open spec fn esri_at(s: Seq<u8>, p: nat, acc: i64) -> Option<(i64, nat)> {
    let r = rest_at(s, p);
    match esri_len(r) {
        Some(k) => Some((esri_apply(r, acc), p + k)),
        None => None,
    }
}


/// The message of a read past the end: `n` bytes needed, `rem` left.
pub open spec fn out_of_bounds_text(n: nat, rem: nat) -> Seq<char> {
    "读取越界: 需要 "@ + decimal(n) + " 字节, 剩余 "@ + decimal(rem)
}

/// A `Format` error for a read of `n` bytes with `rem` left.
pub fn out_of_bounds_error(n: u64, rem: usize) -> (e: GdbError)
    ensures
        e is Format,
        error_text(e) == out_of_bounds_text(n as nat, rem as nat),
{
    proof { reveal_strlit("读取越界: 需要 "); reveal_strlit(" 字节, 剩余 "); }
    let mut msg = to_string("读取越界: 需要 ");
    push_decimal(&mut msg, n);
    msg.append(" 字节, 剩余 ");
    push_decimal(&mut msg, rem as u64);
    GdbError::Format(msg)
}

/// The message of a variable-length integer that reads past the end (one more byte was
/// needed and none was left) or runs longer than `max` bytes.
pub open spec fn leb_error_text(rest_len: nat, max: nat, too_long: Seq<char>) -> Seq<char> {
    if rest_len < max { out_of_bounds_text(1, 0) } else { too_long }
}

/// A reader over a byte slice with a position cursor.
pub struct Reader<'a> {
    pub buf: &'a [u8],
    pub pos: usize,
}

impl<'a> Reader<'a> {
    /// The bytes from the cursor to the end (none when the cursor is past the end).
    pub open spec fn rest(&self) -> Seq<u8> {
        rest_at(self.buf@, self.pos as nat)
    }

    /// A reader at the start of `buf`.
    pub fn new(buf: &'a [u8]) -> (r: Reader<'a>)
        ensures
            r.buf@ == buf@,
            r.pos == 0,
    {
        Reader { buf, pos: 0 }
    }

    /// Number of bytes left to read.
    pub fn remaining(&self) -> (n: usize)
        ensures
            n == self.rest().len(),
    {
        if self.pos <= self.buf.len() {
            self.buf.len() - self.pos
        } else {
            0
        }
    }

    /// Succeeds when `n` more bytes can be read.
    fn need(&self, n: usize) -> (res: Result<(), GdbError>)
        ensures
            res is Ok <==> self.pos + n <= self.buf@.len(),
            res matches Err(e) ==> e is Format && error_text(e) == out_of_bounds_text(n as nat, self.rest().len()),
    {
        if self.pos > self.buf.len() || n > self.buf.len() - self.pos {
            let rem = self.remaining();
            return Err(out_of_bounds_error(n as u64, rem));
        }
        Ok(())
    }

    /// Reads `n` bytes as an unsigned little-endian value (`n <= 8`).
    pub(crate) fn read_le(&mut self, n: usize) -> (res: Result<u64, GdbError>)
        requires
            n <= 8,
        ensures
            final(self).buf == old(self).buf,
            old(self).pos + n <= old(self).buf@.len() ==> {
                &&& res matches Ok(v) && v as nat == le_value(old(self).rest().subrange(0, n as int)) && v < pow256(n as nat)
                &&& final(self).pos == old(self).pos + n
            },
            old(self).pos + n > old(self).buf@.len() ==> {
                &&& res matches Err(e) && e is Format && error_text(e) == out_of_bounds_text(n as nat, old(self).rest().len())
                &&& final(self).pos == old(self).pos
            },
    {
        if let Err(e) = self.need(n) {
            return Err(e);
        }
        let len = self.buf.len();
        let start = self.pos;
        let end = start + n;
        let ghost s = self.buf@.subrange(start as int, start + n);
        let mut v: u64 = 0;
        let mut i: usize = n;
        proof {
            lemma_pow_values();
        }
        while i > 0
            invariant
                i <= n <= 8,
                end == start + n,
                start + n <= self.buf@.len(),
                s == self.buf@.subrange(start as int, start + n),
                v as nat == le_value(s.subrange(i as int, n as int)),
                le_value(s.subrange(i as int, n as int)) < pow256((n - i) as nat),
                pow256(8) == 0x1_0000_0000_0000_0000,
            decreases i,
        {
            let b = self.buf[start + i - 1];
            let ghost sub = s.subrange(i - 1, n as int);
            proof {
                assert(sub.drop_first() == s.subrange(i as int, n as int));
                assert(sub[0] == b);
                lemma_pow256_mono((n - i + 1) as nat, 8);
                assert(pow256((n - i + 1) as nat) == 256 * pow256((n - i) as nat));
                assert(b + 256 * (v as nat) < pow256((n - i + 1) as nat)) by (nonlinear_arith)
                    requires
                        v < pow256((n - i) as nat),
                        b < 256,
                        pow256((n - i + 1) as nat) == 256 * pow256((n - i) as nat),
                ;
            }
            v = v * 256 + b as u64;
            i = i - 1;
        }
        assert(s.subrange(0, n as int) == s);
        assert(old(self).rest().subrange(0, n as int) == s);
        self.pos = end;
        Ok(v)
    }

    /// Reads one byte.
    pub fn u8(&mut self) -> (res: Result<u8, GdbError>)
        ensures
            final(self).buf == old(self).buf,
            old(self).pos < old(self).buf@.len() ==> {
                &&& res == Ok::<u8, GdbError>(old(self).buf@[old(self).pos as int])
                &&& final(self).pos == old(self).pos + 1
            },
            old(self).pos >= old(self).buf@.len() ==> {
                &&& res matches Err(e) && e is Format && error_text(e) == out_of_bounds_text(1, old(self).rest().len())
                &&& final(self).pos == old(self).pos
            },
    {
        if let Err(e) = self.need(1) {
            return Err(e);
        }
        let _len = self.buf.len();
        let v = self.buf[self.pos];
        self.pos = self.pos + 1;
        Ok(v)
    }
}


impl<'a> Reader<'a> {
    /// The little-endian value of the next `n` bytes.
    pub open spec fn peek_le(&self, n: nat) -> nat {
        le_value(self.rest().subrange(0, n as int))
    }

    /// Reads a little-endian `i16`.
    pub fn i16(&mut self) -> (res: Result<i16, GdbError>)
        ensures
            final(self).buf == old(self).buf,
            old(self).pos + 2 <= old(self).buf@.len() ==> {
                &&& res == Ok::<i16, GdbError>(to_signed(old(self).peek_le(2), 16) as i16)
                &&& final(self).pos == old(self).pos + 2
            },
            old(self).pos + 2 > old(self).buf@.len() ==> {
                &&& res matches Err(e) && e is Format && error_text(e) == out_of_bounds_text(2, old(self).rest().len())
                &&& final(self).pos == old(self).pos
            },
    {
        proof { lemma_pow_values(); }
        let v = match self.read_le(2) { Ok(v) => v, Err(e) => return Err(e) };
        let u = v as u16;
        if u >= 0x8000 {
            Ok(((u as i32) - 0x1_0000) as i16)
        } else {
            Ok(u as i16)
        }
    }

    /// Reads a little-endian `u16`.
    pub fn u16(&mut self) -> (res: Result<u16, GdbError>)
        ensures
            final(self).buf == old(self).buf,
            old(self).pos + 2 <= old(self).buf@.len() ==> {
                &&& res == Ok::<u16, GdbError>(old(self).peek_le(2) as u16)
                &&& final(self).pos == old(self).pos + 2
            },
            old(self).pos + 2 > old(self).buf@.len() ==> {
                &&& res matches Err(e) && e is Format && error_text(e) == out_of_bounds_text(2, old(self).rest().len())
                &&& final(self).pos == old(self).pos
            },
    {
        proof { lemma_pow_values(); }
        let v = match self.read_le(2) { Ok(v) => v, Err(e) => return Err(e) };
        Ok(v as u16)
    }

    /// Reads a little-endian `i32`.
    pub fn i32(&mut self) -> (res: Result<i32, GdbError>)
        ensures
            final(self).buf == old(self).buf,
            old(self).pos + 4 <= old(self).buf@.len() ==> {
                &&& res == Ok::<i32, GdbError>(to_signed(old(self).peek_le(4), 32) as i32)
                &&& final(self).pos == old(self).pos + 4
            },
            old(self).pos + 4 > old(self).buf@.len() ==> {
                &&& res matches Err(e) && e is Format && error_text(e) == out_of_bounds_text(4, old(self).rest().len())
                &&& final(self).pos == old(self).pos
            },
    {
        proof { lemma_pow_values(); }
        let v = match self.read_le(4) { Ok(v) => v, Err(e) => return Err(e) };
        let u = v as u32;
        if u >= 0x8000_0000 {
            Ok(((u as i64) - 0x1_0000_0000) as i32)
        } else {
            Ok(u as i32)
        }
    }

    /// Reads a little-endian `u32`.
    pub fn u32(&mut self) -> (res: Result<u32, GdbError>)
        ensures
            final(self).buf == old(self).buf,
            old(self).pos + 4 <= old(self).buf@.len() ==> {
                &&& res == Ok::<u32, GdbError>(old(self).peek_le(4) as u32)
                &&& final(self).pos == old(self).pos + 4
            },
            old(self).pos + 4 > old(self).buf@.len() ==> {
                &&& res matches Err(e) && e is Format && error_text(e) == out_of_bounds_text(4, old(self).rest().len())
                &&& final(self).pos == old(self).pos
            },
    {
        proof { lemma_pow_values(); }
        let v = match self.read_le(4) { Ok(v) => v, Err(e) => return Err(e) };
        Ok(v as u32)
    }

    /// Reads a little-endian `i64`.
    pub fn i64(&mut self) -> (res: Result<i64, GdbError>)
        ensures
            final(self).buf == old(self).buf,
            old(self).pos + 8 <= old(self).buf@.len() ==> {
                &&& res == Ok::<i64, GdbError>(to_signed(old(self).peek_le(8), 64) as i64)
                &&& final(self).pos == old(self).pos + 8
            },
            old(self).pos + 8 > old(self).buf@.len() ==> {
                &&& res matches Err(e) && e is Format && error_text(e) == out_of_bounds_text(8, old(self).rest().len())
                &&& final(self).pos == old(self).pos
            },
    {
        proof { lemma_pow_values(); }
        let v = match self.read_le(8) { Ok(v) => v, Err(e) => return Err(e) };
        if v >= 0x8000_0000_0000_0000 {
            Ok(((v - 0x8000_0000_0000_0000) as i64) + i64::MIN)
        } else {
            Ok(v as i64)
        }
    }

    /// Reads a little-endian `u64`.
    pub fn u64(&mut self) -> (res: Result<u64, GdbError>)
        ensures
            final(self).buf == old(self).buf,
            old(self).pos + 8 <= old(self).buf@.len() ==> {
                &&& res == Ok::<u64, GdbError>(old(self).peek_le(8) as u64)
                &&& final(self).pos == old(self).pos + 8
            },
            old(self).pos + 8 > old(self).buf@.len() ==> {
                &&& res matches Err(e) && e is Format && error_text(e) == out_of_bounds_text(8, old(self).rest().len())
                &&& final(self).pos == old(self).pos
            },
    {
        proof { lemma_pow_values(); }
        self.read_le(8)
    }

    /// Reads a little-endian float32, as its IEEE-754 bit pattern.
    pub fn f32_bits(&mut self) -> (res: Result<u32, GdbError>)
        ensures
            final(self).buf == old(self).buf,
            old(self).pos + 4 <= old(self).buf@.len() ==> {
                &&& res == Ok::<u32, GdbError>(old(self).peek_le(4) as u32)
                &&& final(self).pos == old(self).pos + 4
            },
            old(self).pos + 4 > old(self).buf@.len() ==> {
                &&& res matches Err(e) && e is Format && error_text(e) == out_of_bounds_text(4, old(self).rest().len())
                &&& final(self).pos == old(self).pos
            },
    {
        self.u32()
    }

    /// Reads a little-endian float64, as its IEEE-754 bit pattern.
    pub fn f64_bits(&mut self) -> (res: Result<u64, GdbError>)
        ensures
            final(self).buf == old(self).buf,
            old(self).pos + 8 <= old(self).buf@.len() ==> {
                &&& res == Ok::<u64, GdbError>(old(self).peek_le(8) as u64)
                &&& final(self).pos == old(self).pos + 8
            },
            old(self).pos + 8 > old(self).buf@.len() ==> {
                &&& res matches Err(e) && e is Format && error_text(e) == out_of_bounds_text(8, old(self).rest().len())
                &&& final(self).pos == old(self).pos
            },
    {
        self.u64()
    }

    /// Reads `n` bytes (a view into the buffer, no copy).
    pub fn bytes(&mut self, n: usize) -> (res: Result<&'a [u8], GdbError>)
        ensures
            final(self).buf == old(self).buf,
            old(self).pos + n <= old(self).buf@.len() ==> {
                &&& res matches Ok(b) && b@ == old(self).rest().subrange(0, n as int)
                &&& final(self).pos == old(self).pos + n
            },
            old(self).pos + n > old(self).buf@.len() ==> {
                &&& res matches Err(e) && e is Format && error_text(e) == out_of_bounds_text(n as nat, old(self).rest().len())
                &&& final(self).pos == old(self).pos
            },
    {
        if let Err(e) = self.need(n) {
            return Err(e);
        }
        let len = self.buf.len();
        let start = self.pos;
        let end = start + n;
        let s = vstd::slice::slice_subrange(self.buf, start, end);
        self.pos = end;
        Ok(s)
    }

    /// Reads one group of 7-bit bytes, least significant first, at most `max` bytes long;
    /// the value wraps at 64 bits.
    fn leb_group(&mut self, max: usize, too_long: &str) -> (res: Result<u64, GdbError>)
        requires
            1 <= max <= 10,
        ensures
            final(self).buf == old(self).buf,
            match leb_group_len(old(self).rest(), max as nat) {
                Some(k) => {
                    &&& res == Ok::<u64, GdbError>((leb_value(old(self).rest(), k) % 0x1_0000_0000_0000_0000) as u64)
                    &&& final(self).pos == old(self).pos + k
                },
                None => {
                    &&& res matches Err(e) && e is Format && error_text(e) == leb_error_text(old(self).rest().len(), max as nat, too_long@)
                    &&& final(self).pos == old(self).pos + (if old(self).rest().len() < max { old(self).rest().len() } else { max as nat })
                },
            },
    {
        let ghost s = self.rest();
        let ghost p0 = self.pos;
        let ghost buf0 = self.buf;
        let mut result: u64 = 0;
        let mut mult: u64 = 1;
        let mut i: usize = 0;
        proof {
            lemma_pow_values();
        }
        loop
            invariant
                self.buf == buf0,
                buf0 == old(self).buf,
                s == old(self).rest(),
                p0 == old(self).pos,
                1 <= max <= 10,
                i < max,
                self.pos == p0 + i,
                i <= s.len(),
                forall|j: int| 0 <= j < i ==> s[j] >= 128,
                result as nat == leb_value(s, i as nat) % 0x1_0000_0000_0000_0000,
                mult as nat == pow128(i as nat),
                pow128(9) == 0x8000_0000_0000_0000,
            decreases max - i,
        {
            let ghost pos_before = self.pos;
            let b = match self.u8() {
                Ok(b) => b,
                Err(e) => {
                    proof {
                        assert(i == s.len());
                        lemma_leb_len_none(s, max as nat, i as nat);
                    }
                    return Err(e);
                },
            };
            proof {
                assert(p0 <= buf0@.len());
                assert(s[i as int] == b);
                lemma_leb_value_step(s, i as nat);
                assert(b & 0x7f == b % 128) by (bit_vector);
                assert((b & 0x80 == 0) == (b < 128)) by (bit_vector);
                let x = (b % 128) as int;
                let m = pow128(i as nat) as int;
                let l = leb_value(s, i as nat) as int;
                vstd::arithmetic::div_mod::lemma_add_mod_noop(l, x * m, 0x1_0000_0000_0000_0000);
                vstd::arithmetic::div_mod::lemma_mod_twice(x * m, 0x1_0000_0000_0000_0000);
            }
            let payload = (b & 0x7f) as u64;
            result = result.wrapping_add(payload.wrapping_mul(mult));
            if b & 0x80 == 0 {
                proof {
                    lemma_leb_len_some(s, max as nat, (i + 1) as nat);
                }
                return Ok(result);
            }
            i = i + 1;
            if i >= max {
                proof {
                    lemma_leb_len_none(s, max as nat, i as nat);
                }
                return Err(format_error(too_long));
            }
            proof {
                assert(pow128(i as nat) == 128 * pow128((i - 1) as nat));
                lemma_pow128_mono(i as nat, 9);
            }
            mult = mult * 128;
        }
    }

    /// Reads an unsigned variable-length integer (LEB128, low groups first, at most ten
    /// bytes; bits beyond 64 are dropped).
    pub fn varuint(&mut self) -> (res: Result<u64, GdbError>)
        ensures
            final(self).buf == old(self).buf,
            match leb_group_len(old(self).rest(), 10) {
                Some(k) => {
                    &&& res == Ok::<u64, GdbError>((leb_value(old(self).rest(), k) % 0x1_0000_0000_0000_0000) as u64)
                    &&& final(self).pos == old(self).pos + k
                },
                None => {
                    &&& res matches Err(e) && e is Format && error_text(e) == leb_error_text(old(self).rest().len(), 10, "varuint 过长"@)
                    &&& final(self).pos == old(self).pos + (if old(self).rest().len() < 10 { old(self).rest().len() } else { 10 })
                },
            },
    {
        self.leb_group(10, "varuint 过长")
    }
}

impl<'a> Reader<'a> {
    /// Reads an ESRI signed variable-length integer and adds it to `acc` (64-bit two's
    /// complement): the first byte holds 6 data bits, the sign in bit 6 and a continuation
    /// flag in bit 7; up to nine continuation bytes carry 7 data bits each.
    pub fn varint_esri(&mut self, acc: i64) -> (res: Result<i64, GdbError>)
        ensures
            final(self).buf == old(self).buf,
            match esri_len(old(self).rest()) {
                Some(k) => {
                    &&& res == Ok::<i64, GdbError>(esri_apply(old(self).rest(), acc))
                    &&& final(self).pos == old(self).pos + k
                },
                None => {
                    &&& res matches Err(e) && e is Format && error_text(e) == (if old(self).rest().len() == 0 {
                        out_of_bounds_text(1, 0)
                    } else {
                        leb_error_text((old(self).rest().len() - 1) as nat, 9, "varint_esri 过长"@)
                    })
                    &&& final(self).pos == old(self).pos + (if old(self).rest().len() == 0 { 0 } else if old(self).rest().len() < 10 { old(self).rest().len() } else { 10 })
                },
            },
    {
        let ghost s = self.rest();
        let b = match self.u8() {
            Ok(b) => b,
            Err(e) => return Err(e),
        };
        proof {
            assert(s[0] == b);
            assert(b & 0x3f == b % 64) by (bit_vector);
            assert((b & 0x40 != 0) == ((b / 64) % 2 == 1)) by (bit_vector);
            assert((b & 0x80 == 0) == (b < 128)) by (bit_vector);
            assert(self.rest() == s.drop_first());
        }
        let negative = b & 0x40 != 0;
        let low = (b & 0x3f) as u64;
        let mag: u64 = if b & 0x80 == 0 {
            low
        } else {
            let g = match self.leb_group(9, "varint_esri 过长") {
                Ok(g) => g,
                Err(e) => return Err(e),
            };
            proof {
                let k = leb_group_len(s.drop_first(), 9).unwrap();
                let l = leb_value(s.drop_first(), k) as int;
                let mm = 0x1_0000_0000_0000_0000int;
                vstd::arithmetic::div_mod::lemma_mul_mod_noop_right(64, l, mm);
                vstd::arithmetic::div_mod::lemma_add_mod_noop(low as int, 64 * l, mm);
                vstd::arithmetic::div_mod::lemma_small_mod(low as nat, mm as nat);
                vstd::arithmetic::div_mod::lemma_mod_twice(64 * l, mm);
            }
            low.wrapping_add(g.wrapping_mul(64))
        };
        assert(mag as int == esri_magnitude(s) as int % 0x1_0000_0000_0000_0000) by {
            if b >= 128 {
            } else {
                vstd::arithmetic::div_mod::lemma_small_mod(low as nat, 0x1_0000_0000_0000_0000nat);
            }
        }
        Ok(crop_i64(if negative { acc as i128 - mag as i128 } else { acc as i128 + mag as i128 }))
    }
}

/// Wraps an integer into the `i64` range (64-bit two's complement).
pub(crate) fn crop_i64(t: i128) -> (r: i64)
    requires
        -0x1_8000_0000_0000_0000 < t < 0x1_8000_0000_0000_0000,
    ensures
        r == vstd::wrapping::i64_specs::signed_crop(t as int),
{
    let m: i128 = 0x1_0000_0000_0000_0000;
    let mut u = t;
    let ghost mut q: int = 0;
    if u < 0 {
        u = u + m;
        proof { q = q - 1; }
    }
    if u < 0 {
        u = u + m;
        proof { q = q - 1; }
    }
    if u >= m {
        u = u - m;
        proof { q = q + 1; }
    }
    assert(u == (t as int) % 0x1_0000_0000_0000_0000int) by {
        assert(t as int == q * 0x1_0000_0000_0000_0000int + u as int);
        vstd::arithmetic::div_mod::lemma_fundamental_div_mod_converse(
            t as int, 0x1_0000_0000_0000_0000int, q, u as int);
    }
    if u > 0x7fff_ffff_ffff_ffff {
        (u - m) as i64
    } else {
        u as i64
    }
}

/// `128^n` grows with `n`.
pub proof fn lemma_pow128_mono(a: nat, b: nat)
    requires
        a <= b,
    ensures
        pow128(a) <= pow128(b),
    decreases b,
{
    if a < b {
        lemma_pow128_mono(a, (b - 1) as nat);
        assert(pow128(b) == 128 * pow128((b - 1) as nat));
    }
}

/// `256^n` grows with `n`.
pub proof fn lemma_pow256_mono(a: nat, b: nat)
    requires
        a <= b,
    ensures
        pow256(a) <= pow256(b),
    decreases b,
{
    if a < b {
        lemma_pow256_mono(a, (b - 1) as nat);
        assert(pow256(b) == 256 * pow256((b - 1) as nat));
    }
}

} // verus!

verus! {

// ---------------------------------------------------------------------------
// Writers
// ---------------------------------------------------------------------------

/// Appends the unsigned variable-length encoding (LEB128) of `v`.
pub fn write_varuint(out: &mut Vec<u8>, v: u64)
    ensures
        final(out)@ == old(out)@ + leb_encode(v as nat),
{
    let mut rem = v;
    loop
        invariant
            out@ + leb_encode(rem as nat) == old(out)@ + leb_encode(v as nat),
        decreases rem,
    {
        if rem < 128 {
            let ghost before = out@;
            out.push(rem as u8);
            assert(out@ == before + leb_encode(rem as nat));
            return;
        }
        let ghost before = out@;
        out.push((rem % 128 + 128) as u8);
        assert(leb_encode(rem as nat) == seq![(rem % 128 + 128) as u8] + leb_encode((rem / 128) as nat));
        assert(out@ + leb_encode((rem / 128) as nat) == before + leb_encode(rem as nat));
        rem = rem / 128;
    }
}

/// Appends the ESRI signed variable-length encoding of `delta` (see [`esri_encode`]).
pub fn write_varint_esri(out: &mut Vec<u8>, delta: i64)
    ensures
        final(out)@ == old(out)@ + esri_encode(delta as int),
{
    let negative = delta < 0;
    let mag: u64 = if negative { (-(delta as i128)) as u64 } else { delta as u64 };
    let mut b: u8 = (mag % 64) as u8;
    if negative {
        b = b + 64;
    }
    let hi = mag / 64;
    let ghost before = out@;
    if hi != 0 {
        b = b + 128;
        out.push(b);
        write_varuint(out, hi);
    } else {
        out.push(b);
    }
    assert(out@ == before + esri_encode(delta as int));
}

/// Number of bytes of the ESRI signed variable-length encoding of `v`.
pub fn varint_len(v: i64) -> (n: usize)
    ensures
        n == esri_encode(v as int).len(),
{
    let negative = v < 0;
    let mut mag: u64 = if negative { (-(v as i128)) as u64 } else { v as u64 };
    mag = mag / 64;
    if mag == 0 {
        return 1;
    }
    let n = varuint_len(mag);
    assert(esri_encode(v as int) == seq![esri_encode(v as int)[0]] + leb_encode(mag as nat));
    n + 1
}

/// Number of bytes of the unsigned variable-length encoding of `v`.
pub fn varuint_len(v: u64) -> (n: usize)
    ensures
        n == leb_encode(v as nat).len(),
        1 <= n <= 10,
{
    let mut rem = v;
    let mut n: usize = 1;
    proof {
        lemma_pow_values();
        lemma_leb_encode_len(v as nat, 10);
    }
    while rem >= 128
        invariant
            1 <= n,
            n + leb_encode(rem as nat).len() == leb_encode(v as nat).len() + 1,
            leb_encode(v as nat).len() <= 10,
        decreases rem,
    {
        assert(leb_encode(rem as nat).len() == 1 + leb_encode((rem / 128) as nat).len());
        rem = rem / 128;
        n = n + 1;
    }
    n
}

// ---------------------------------------------------------------------------
// Laws of the variable-length integers
// ---------------------------------------------------------------------------

/// Reading an unsigned variable-length integer where [`write_varuint`] wrote `v` gives
/// back `v` and consumes exactly the bytes written, whatever follows them.
pub proof fn law_varuint_roundtrip(v: u64, rest: Seq<u8>)
    ensures
        leb_group_len(leb_encode(v as nat) + rest, 10) == Some(leb_encode(v as nat).len()),
        (leb_value(leb_encode(v as nat) + rest, leb_encode(v as nat).len()) % 0x1_0000_0000_0000_0000) as u64 == v,
{
    lemma_pow_values();
    lemma_leb_encode_len(v as nat, 10);
    lemma_leb_roundtrip(v as nat, rest, 10);
    vstd::arithmetic::div_mod::lemma_small_mod(v as nat, 0x1_0000_0000_0000_0000nat);
}

/// Reading an ESRI signed variable-length integer where [`write_varint_esri`] wrote
/// `delta` adds `delta` to the accumulator (64-bit two's complement) and consumes exactly
/// the bytes written, whatever follows them.
pub proof fn law_varint_esri_roundtrip(delta: i64, acc: i64, rest: Seq<u8>)
    ensures
        esri_len(esri_encode(delta as int) + rest) == Some(esri_encode(delta as int).len()),
        esri_apply(esri_encode(delta as int) + rest, acc) == acc.wrapping_add(delta),
{
    let e = esri_encode(delta as int);
    let s = e + rest;
    let mag: nat = if delta < 0 { (-delta) as nat } else { delta as nat };
    let first: nat = mag % 64 + (if delta < 0 { 64nat } else { 0nat }) + (if mag >= 64 { 128nat } else { 0nat });
    assert(s[0] == first as u8);
    assert((first / 64) % 2 == 1 <==> delta < 0);
    assert(first < 128 <==> mag < 64);
    assert(mag <= 0x8000_0000_0000_0000);
    if mag >= 64 {
        lemma_pow_values();
        assert(mag / 64 < pow128(9));
        lemma_leb_encode_len(mag / 64, 9);
        assert(s.drop_first() == leb_encode(mag / 64) + rest);
        lemma_leb_roundtrip(mag / 64, rest, 9);
        assert(esri_magnitude(s) == mag % 64 + 64 * (mag / 64));
    }
    assert(esri_magnitude(s) == mag);
    vstd::arithmetic::div_mod::lemma_small_mod(mag, 0x1_0000_0000_0000_0000nat);
}

} // verus!

verus! {

// ---------------------------------------------------------------------------
// UTF-16
// ---------------------------------------------------------------------------

/// The UTF-16 code units of one character.
pub open spec fn utf16_char_units(c: char) -> Seq<u16> {
    let v = (c as u32) as int;
    if v < 0x10000 {
        seq![v as u16]
    } else {
        seq![(0xD800 + (v - 0x10000) / 0x400) as u16, (0xDC00 + (v - 0x10000) % 0x400) as u16]
    }
}

/// The UTF-16 code units of a character sequence.
pub open spec fn utf16_units(cs: Seq<char>) -> Seq<u16>
    decreases cs.len(),
{
    if cs.len() == 0 {
        Seq::empty()
    } else {
        utf16_units(cs.drop_last()) + utf16_char_units(cs.last())
    }
}

/// Code units written as little-endian byte pairs.
pub open spec fn units_le(us: Seq<u16>) -> Seq<u8> {
    Seq::new(2 * us.len(), |i: int| if i % 2 == 0 { (us[i / 2] % 256) as u8 } else { (us[i / 2] / 256) as u8 })
}

/// The `n` little-endian code units at the start of `s`.
pub open spec fn le_units(s: Seq<u8>, n: nat) -> Seq<u16> {
    Seq::new(n, |i: int| (s[2 * i] + 256 * s[2 * i + 1]) as u16)
}

/// Little-endian byte pairs of concatenated code units are the concatenated byte pairs.
pub proof fn lemma_units_le_concat(a: Seq<u16>, b: Seq<u16>)
    ensures
        units_le(a + b) == units_le(a) + units_le(b),
{
    let l = units_le(a + b);
    let r = units_le(a) + units_le(b);
    assert forall|i: int| 0 <= i < l.len() implies l[i] == r[i] by {
        if i < 2 * a.len() {
            assert((a + b)[i / 2] == a[i / 2]);
        } else {
            assert((i - 2 * a.len()) / 2 == i / 2 - a.len());
            assert((i - 2 * a.len()) % 2 == i % 2);
            assert((a + b)[i / 2] == b[i / 2 - a.len()]);
        }
    }
    assert(l =~= r);
}

/// One character takes one code unit below U+10000 (never a low surrogate) and two above
/// (the second a low surrogate).
pub proof fn lemma_utf16_char_units(c: char)
    ensures
        (c as u32) < 0x10000 ==> utf16_char_units(c).len() == 1
            && utf16_char_units(c)[0] as u32 == c as u32
            && !(0xDC00 <= utf16_char_units(c)[0] <= 0xDFFF),
        (c as u32) >= 0x10000 ==> utf16_char_units(c).len() == 2
            && 0xDC00 <= utf16_char_units(c)[1] <= 0xDFFF,
        utf16_char_units(c).len() >= 1,
{
    vstd::utf8::char_is_scalar(c);
}

/// Different character sequences have different UTF-16 code units.
pub proof fn lemma_utf16_units_injective(a: Seq<char>, b: Seq<char>)
    requires
        utf16_units(a) == utf16_units(b),
    ensures
        a == b,
    decreases a.len(),
{
    if a.len() == 0 {
        if b.len() > 0 {
            lemma_utf16_char_units(b.last());
            assert(utf16_units(b).len() >= 1);
        }
        assert(b =~= a);
    } else if b.len() == 0 {
        lemma_utf16_char_units(a.last());
        assert(utf16_units(a).len() >= 1);
    } else {
        let x = a.last();
        let y = b.last();
        let ua = utf16_units(a.drop_last());
        let ub = utf16_units(b.drop_last());
        let cx = utf16_char_units(x);
        let cy = utf16_char_units(y);
        let u = utf16_units(a);
        assert(u == ua + cx);
        assert(u == ub + cy);
        lemma_utf16_char_units(x);
        lemma_utf16_char_units(y);
        let n = u.len();
        assert(u[n - 1] == cx[cx.len() - 1]);
        assert(u[n - 1] == cy[cy.len() - 1]);
        assert(cx.len() == cy.len());
        assert(ua =~= u.subrange(0, n - cx.len()));
        assert(ub =~= u.subrange(0, n - cy.len()));
        assert(cx =~= u.subrange(n - cx.len(), n as int));
        assert(cy =~= u.subrange(n - cy.len(), n as int));
        assert(cx == cy);
        vstd::utf8::char_is_scalar(x);
        vstd::utf8::char_is_scalar(y);
        let vx = x as u32;
        let vy = y as u32;
        if vx < 0x10000 {
            assert(vx == vy);
        } else {
            assert(cx[0] == ((0xD800 + (vx - 0x10000) / 0x400) as u16));
            assert(cy[0] == ((0xD800 + (vy - 0x10000) / 0x400) as u16));
            assert(cx[1] == ((0xDC00 + (vx - 0x10000) % 0x400) as u16));
            assert(cy[1] == ((0xDC00 + (vy - 0x10000) % 0x400) as u16));
            assert((vx - 0x10000) / 0x400 == (vy - 0x10000) / 0x400);
            assert((vx - 0x10000) % 0x400 == (vy - 0x10000) % 0x400);
            assert(vx == vy);
        }
        vstd::utf8::char_u32_cast(x, vx);
        vstd::utf8::char_u32_cast(y, vy);
        assert(x == y);
        lemma_utf16_units_injective(a.drop_last(), b.drop_last());
        assert(a =~= a.drop_last().push(x));
        assert(b =~= b.drop_last().push(y));
    }
}

/// Little-endian byte pairs read back as the code units they were written from.
pub proof fn lemma_le_units_units_le(us: Seq<u16>)
    ensures
        le_units(units_le(us), units_le(us).len() / 2) == us,
{
    let b = units_le(us);
    assert(b.len() / 2 == us.len());
    assert forall|i: int| 0 <= i < us.len() implies #[trigger] le_units(b, us.len())[i] == us[i] by {
        assert(b[2 * i] == (us[i] % 256) as u8);
        assert(b[2 * i + 1] == (us[i] / 256) as u8);
    }
    assert(le_units(b, us.len()) =~= us);
}

/// What `String::from_utf16_lossy` makes of a sequence of code units.
pub uninterp spec fn utf16_lossy(units: Seq<u16>) -> Seq<char>;

/// The text of UTF-16 code units: the characters they encode when they are valid, else
/// what `String::from_utf16_lossy` makes of them.
pub open spec fn utf16_text(us: Seq<u16>) -> Seq<char> {
    if exists|cs: Seq<char>| utf16_units(cs) == us {
        choose|cs: Seq<char>| utf16_units(cs) == us
    } else {
        utf16_lossy(us)
    }
}

/// Decodes UTF-16 code units (see [`utf16_text`]).
pub fn decode_utf16(units: &[u16]) -> (s: String)
    ensures
        s@ == utf16_text(units@),
{
    let s = string_from_utf16_lossy(units);
    proof {
        if exists|cs: Seq<char>| utf16_units(cs) == units@ {
            let cs = choose|cs: Seq<char>| utf16_units(cs) == units@;
            assert(s@ == cs);
        }
    }
    s
}

/// Valid UTF-16 code units decode to the characters they encode.
pub proof fn lemma_utf16_text(cs: Seq<char>)
    ensures
        utf16_text(utf16_units(cs)) == cs,
{
    let us = utf16_units(cs);
    assert(exists|c: Seq<char>| utf16_units(c) == us);
    let c = choose|c: Seq<char>| utf16_units(c) == us;
    lemma_utf16_units_injective(c, cs);
}

/// Text written as UTF-16LE bytes (as [`encode_utf16`] writes it) and read back as that
/// many code units (as [`Reader::utf16`] reads them) is the text.
pub proof fn law_utf16_roundtrip(cs: Seq<char>, rest: Seq<u8>)
    ensures
        utf16_text(le_units(units_le(utf16_units(cs)) + rest, utf16_units(cs).len())) == cs,
{
    let us = utf16_units(cs);
    let b = units_le(us);
    lemma_le_units_units_le(us);
    assert forall|i: int| 0 <= i < us.len() implies #[trigger] le_units(b + rest, us.len())[i] == le_units(b, us.len())[i] by {
        assert((b + rest)[2 * i] == b[2 * i]);
        assert((b + rest)[2 * i + 1] == b[2 * i + 1]);
    }
    assert(le_units(b + rest, us.len()) =~= le_units(b, us.len()));
    lemma_utf16_text(cs);
}

/// Calls `String::from_utf16_lossy`. The contract claims that the result depends on the
/// code units alone, and that code units which are the UTF-16 encoding of some characters
/// decode to exactly those characters (invalid units become U+FFFD; which characters those
/// are is left to the name `utf16_lossy`).
#[verifier::external_body]
pub(crate) fn string_from_utf16_lossy(units: &[u16]) -> (s: String)
    ensures
        s@ == utf16_lossy(units@),
        forall|cs: Seq<char>| utf16_units(cs) == units@ ==> s@ == cs,
{
    String::from_utf16_lossy(units)
}

/// What `String::from_utf8_lossy` makes of a byte sequence.
pub uninterp spec fn utf8_lossy(bytes: Seq<u8>) -> Seq<char>;

/// Calls `String::from_utf8_lossy` and takes the text. The contract claims that the result
/// depends on the bytes alone, and that valid UTF-8 decodes to exactly its characters
/// (invalid sequences become U+FFFD; which characters those are is left to the name
/// `utf8_lossy`).
#[verifier::external_body]
pub(crate) fn string_from_utf8_lossy(bytes: &[u8]) -> (s: String)
    ensures
        s@ == utf8_lossy(bytes@),
        vstd::utf8::valid_utf8(bytes@) ==> s@ == vstd::utf8::decode_utf8(bytes@),
{
    String::from_utf8_lossy(bytes).to_string()
}

/// The text of UTF-8 bytes: the characters they encode when they are valid, else what
/// `String::from_utf8_lossy` makes of them.
pub open spec fn utf8_text(bytes: Seq<u8>) -> Seq<char> {
    if vstd::utf8::valid_utf8(bytes) { vstd::utf8::decode_utf8(bytes) } else { utf8_lossy(bytes) }
}

/// Decodes UTF-8 bytes (see [`utf8_text`]).
pub fn utf8_to_string(bytes: &[u8]) -> (s: String)
    ensures
        s@ == utf8_text(bytes@),
{
    string_from_utf8_lossy(bytes)
}

/// The little-endian code units of a byte sequence (a trailing odd byte is ignored).
pub fn units_from_le_bytes(b: &[u8]) -> (units: Vec<u16>)
    ensures
        units@ == le_units(b@, b@.len() / 2),
{
    let mut units: Vec<u16> = Vec::new();
    let len = b.len();
    let n = len / 2;
    let mut i: usize = 0;
    while i < n
        invariant
            len == b@.len(),
            n == b@.len() / 2,
            i <= n,
            units@ == le_units(b@, i as nat),
        decreases n - i,
    {
        assert(2 * i + 1 < len);
        let j = 2 * i;
        let u = (b[j] as u16) + 256 * (b[j + 1] as u16);
        units.push(u);
        i = i + 1;
        assert(units@ =~= le_units(b@, i as nat));
    }
    units
}

/// Encodes a string as UTF-16LE bytes (no length prefix).
pub fn encode_utf16(s: &str) -> (out: Vec<u8>)
    ensures
        out@ == units_le(utf16_units(s@)),
{
    broadcast use vstd::string::group_string_axioms;
    let mut out: Vec<u8> = Vec::new();
    let mut it = s.chars();
    let ghost mut done: Seq<char> = Seq::empty();
    assert(vstd::std_specs::iter::IteratorSpec::remaining(&it) == s@);
    loop
        invariant
            done + vstd::std_specs::iter::IteratorSpec::remaining(&it) == s@,
            out@ == units_le(utf16_units(done)),
        decreases s@.len() - done.len(),
    {
        let ghost before = vstd::std_specs::iter::IteratorSpec::remaining(&it);
        match it.next() {
            Some(c) => {
                let ghost prev = out@;
                proof {
                    vstd::utf8::char_is_scalar(c);
                }
                let v = c as u32;
                proof {
                    assert(c == before[0]);
                }
                if v < 0x10000 {
                    let u = v as u16;
                    out.push((u % 256) as u8);
                    out.push((u / 256) as u8);
                    proof {
                        assert(utf16_char_units(c) == seq![u]);
                        assert(units_le(seq![u]) =~= seq![(u % 256) as u8, (u / 256) as u8]);
                        assert(out@ =~= prev + units_le(seq![u]));
                    }
                } else {
                    let w = v - 0x10000;
                    let hi = (0xD800 + w / 0x400) as u16;
                    let lo = (0xDC00 + w % 0x400) as u16;
                    out.push((hi % 256) as u8);
                    out.push((hi / 256) as u8);
                    out.push((lo % 256) as u8);
                    out.push((lo / 256) as u8);
                    proof {
                        assert(utf16_char_units(c) == seq![hi, lo]);
                        assert(units_le(seq![hi, lo]) =~= seq![(hi % 256) as u8, (hi / 256) as u8, (lo % 256) as u8, (lo / 256) as u8]);
                        assert(out@ =~= prev + units_le(seq![hi, lo]));
                    }
                }
                proof {
                    let nd = done.push(c);
                    assert(nd.drop_last() == done);
                    assert(utf16_units(nd) == utf16_units(done) + utf16_char_units(c));
                    lemma_units_le_concat(utf16_units(done), utf16_char_units(c));
                    assert(out@ == prev + units_le(utf16_char_units(c)));
                    assert(out@ == units_le(utf16_units(nd)));
                    assert(nd + vstd::std_specs::iter::IteratorSpec::remaining(&it) == s@) by {
                        assert(before == seq![c] + vstd::std_specs::iter::IteratorSpec::remaining(&it));
                    }
                    done = nd;
                }
            },
            None => {
                assert(done == s@);
                return out;
            },
        }
    }
}

impl<'a> Reader<'a> {
    /// Reads `nchars` UTF-16LE code units and decodes them (invalid units become U+FFFD).
    pub fn utf16(&mut self, nchars: usize) -> (res: Result<String, GdbError>)
        ensures
            final(self).buf == old(self).buf,
            2 * nchars <= old(self).rest().len() ==> {
                &&& res matches Ok(s) && s@ == utf16_text(le_units(old(self).rest(), nchars as nat))
                &&& final(self).pos == old(self).pos + 2 * nchars
            },
            2 * nchars > old(self).rest().len() ==> {
                &&& res matches Err(e) && e is Format && error_text(e) == out_of_bounds_text(2, old(self).rest().len() % 2)
                &&& final(self).pos == old(self).pos + 2 * (old(self).rest().len() / 2)
            },
    {
        let ghost s = self.rest();
        let ghost p0 = self.pos;
        let mut units: Vec<u16> = Vec::new();
        let mut i: usize = 0;
        while i < nchars
            invariant
                self.buf == old(self).buf,
                s == old(self).rest(),
                p0 == old(self).pos,
                i <= nchars,
                self.pos == p0 + 2 * i,
                2 * i <= s.len(),
                units@ == le_units(s, i as nat),
            decreases nchars - i,
        {
            proof {
                reveal_with_fuel(le_value, 3);
            }
            let ghost before = self.rest();
            let u = match self.u16() {
                Ok(u) => u,
                Err(e) => {
                    assert(s.len() < 2 * i + 2);
                    return Err(e);
                },
            };
            proof {
                assert(before == s.subrange(2 * i, s.len() as int));
                assert(before.subrange(0, 2).drop_first().drop_first().len() == 0);
                assert(u == (s[2 * i] + 256 * s[2 * i + 1]) as u16);
            }
            units.push(u);
            i = i + 1;
            assert(units@ == le_units(s, i as nat));
        }
        Ok(decode_utf16(units.as_slice()))
    }
}

} // verus!

verus! {

/// The `n` little-endian bytes of `v` (higher bytes dropped).
pub open spec fn le_bytes(v: nat, n: nat) -> Seq<u8>
    decreases n,
{
    if n == 0 { Seq::empty() } else { seq![(v % 256) as u8] + le_bytes(v / 256, (n - 1) as nat) }
}

/// Little-endian bytes read back give the value modulo `256^n`.
pub proof fn lemma_le_bytes_value(v: nat, n: nat)
    ensures
        le_bytes(v, n).len() == n,
        le_value(le_bytes(v, n)) == v % pow256(n),
    decreases n,
{
    if n == 0 {
        assert(le_bytes(v, 0) == Seq::<u8>::empty());
        assert(pow256(0) == 1);
    } else {
        lemma_le_bytes_value(v / 256, (n - 1) as nat);
        let s = le_bytes(v, n);
        assert(s.drop_first() == le_bytes(v / 256, (n - 1) as nat));
        let p = pow256((n - 1) as nat);
        assert(pow256(n) == 256 * p);
        assert(p > 0) by {
            lemma_pow256_mono(0, (n - 1) as nat);
            assert(pow256(0) == 1);
        }
        assert((v % 256) + 256 * ((v / 256) % p) == v % (256 * p)) by (nonlinear_arith)
            requires
                p > 0,
        {
            vstd::arithmetic::div_mod::lemma_breakdown(v as int, 256, p as int);
        }
    }
}

/// Appends the `n` little-endian bytes of `v`.
pub fn write_le(out: &mut Vec<u8>, v: u64, n: usize)
    ensures
        final(out)@ == old(out)@ + le_bytes(v as nat, n as nat),
{
    let mut rem = v;
    let mut i: usize = 0;
    while i < n
        invariant
            i <= n,
            out@ + le_bytes(rem as nat, (n - i) as nat) == old(out)@ + le_bytes(v as nat, n as nat),
        decreases n - i,
    {
        let ghost before = out@;
        out.push((rem % 256) as u8);
        assert(le_bytes(rem as nat, (n - i) as nat) == seq![(rem % 256) as u8] + le_bytes((rem / 256) as nat, (n - i - 1) as nat));
        assert(out@ + le_bytes((rem / 256) as nat, (n - i - 1) as nat) == before + le_bytes(rem as nat, (n - i) as nat));
        rem = rem / 256;
        i = i + 1;
    }
    assert(le_bytes(rem as nat, 0) == Seq::<u8>::empty());
}

/// Reads a `width`-byte little-endian unsigned integer from the start of `buf`.
pub fn read_uint_le(buf: &[u8], width: usize) -> (v: u64)
    requires
        width <= 8,
        width <= buf@.len(),
    ensures
        v as nat == le_value(buf@.subrange(0, width as int)),
{
    let mut r = Reader::new(buf);
    assert(r.rest() == buf@) by {
        assert(buf@.subrange(0, buf@.len() as int) == buf@);
    }
    match r.read_le(width) {
        Ok(v) => v,
        Err(_) => 0,
    }
}

} // verus!
