//! The fixed-width integer kinds a buffer can serialize: the unsigned and
//! signed integers of 1, 2, 4 and 8 bytes.
//!
//! Each value is identified with its bit pattern zero-extended to 64 bits; a
//! signed value contributes its two's-complement pattern. The byte-order
//! codecs in [`crate::endian`] work on that pattern, so one pair of
//! serialization loops serves all eight types.

use vstd::prelude::*;
use crate::endian::{be_bytes, be_val, le_bytes, le_val, pow256};
use crate::endian::{lemma_be_bytes_len, lemma_be_val_be_bytes, lemma_le_bytes_is_reverse_of_be_bytes};
use crate::endian::{lemma_le_bytes_len, lemma_le_val_le_bytes, lemma_pow256_values};

verus! {

/// A fixed-width integer type of 1, 2, 4 or 8 bytes, seen through its bit
/// pattern. `spec_bits` zero-extends the two's-complement pattern to 64 bits,
/// and `spec_of_bits` reinterprets the low `spec_size()` bytes of a pattern;
/// they are mutually inverse on values of the type.
pub trait Prim: Sized + Copy {
    /// The width of the type in bytes.
    spec fn spec_size() -> nat;

    /// The bit pattern of `self`, zero-extended to 64 bits.
    spec fn spec_bits(self) -> u64;

    /// The value whose pattern is the low `spec_size()` bytes of `bits`.
    spec fn spec_of_bits(bits: u64) -> Self;

    proof fn lemma_size()
        ensures
            Self::spec_size() == 1 || Self::spec_size() == 2 || Self::spec_size() == 4
                || Self::spec_size() == 8,
    ;

    /// A pattern fits in the type's width.
    proof fn lemma_bits_bound(self)
        ensures
            self.spec_bits() < pow256(Self::spec_size()),
    ;

    /// Reinterpreting a value's own pattern yields the value back.
    proof fn lemma_of_bits_roundtrip(self)
        ensures
            Self::spec_of_bits(self.spec_bits()) == self,
    ;

    /// The width of the type in bytes.
    fn size() -> (r: u32)
        ensures
            r == Self::spec_size(),
    ;

    /// The bit pattern of `self`, zero-extended to 64 bits.
    fn bits(self) -> (r: u64)
        ensures
            r == self.spec_bits(),
    ;

    /// The value whose pattern is the low `spec_size()` bytes of `bits`.
    fn of_bits(bits: u64) -> (r: Self)
        ensures
            r == Self::spec_of_bits(bits),
    ;
}

impl Prim for u8 {
    open spec fn spec_size() -> nat {
        1
    }

    open spec fn spec_bits(self) -> u64 {
        self as u64
    }

    open spec fn spec_of_bits(bits: u64) -> Self {
        (bits % 0x100) as u8
    }

    proof fn lemma_size() {
    }

    proof fn lemma_bits_bound(self) {
        lemma_pow256_values();
    }

    proof fn lemma_of_bits_roundtrip(self) {
    }

    fn size() -> u32 {
        1
    }

    fn bits(self) -> u64 {
        self as u64
    }

    fn of_bits(bits: u64) -> Self {
        (bits % 0x100) as u8
    }
}

impl Prim for u16 {
    open spec fn spec_size() -> nat {
        2
    }

    open spec fn spec_bits(self) -> u64 {
        self as u64
    }

    open spec fn spec_of_bits(bits: u64) -> Self {
        (bits % 0x1_0000) as u16
    }

    proof fn lemma_size() {
    }

    proof fn lemma_bits_bound(self) {
        lemma_pow256_values();
    }

    proof fn lemma_of_bits_roundtrip(self) {
    }

    fn size() -> u32 {
        2
    }

    fn bits(self) -> u64 {
        self as u64
    }

    fn of_bits(bits: u64) -> Self {
        (bits % 0x1_0000) as u16
    }
}

impl Prim for u32 {
    open spec fn spec_size() -> nat {
        4
    }

    open spec fn spec_bits(self) -> u64 {
        self as u64
    }

    open spec fn spec_of_bits(bits: u64) -> Self {
        (bits % 0x1_0000_0000) as u32
    }

    proof fn lemma_size() {
    }

    proof fn lemma_bits_bound(self) {
        lemma_pow256_values();
    }

    proof fn lemma_of_bits_roundtrip(self) {
    }

    fn size() -> u32 {
        4
    }

    fn bits(self) -> u64 {
        self as u64
    }

    fn of_bits(bits: u64) -> Self {
        (bits % 0x1_0000_0000) as u32
    }
}

impl Prim for u64 {
    open spec fn spec_size() -> nat {
        8
    }

    open spec fn spec_bits(self) -> u64 {
        self
    }

    open spec fn spec_of_bits(bits: u64) -> Self {
        bits
    }

    proof fn lemma_size() {
    }

    proof fn lemma_bits_bound(self) {
        lemma_pow256_values();
    }

    proof fn lemma_of_bits_roundtrip(self) {
    }

    fn size() -> u32 {
        8
    }

    fn bits(self) -> u64 {
        self
    }

    fn of_bits(bits: u64) -> Self {
        bits
    }
}

impl Prim for i8 {
    open spec fn spec_size() -> nat {
        1
    }

    open spec fn spec_bits(self) -> u64 {
        if self >= 0 {
            self as u64
        } else {
            (self + 0x100) as u64
        }
    }

    open spec fn spec_of_bits(bits: u64) -> Self {
        if bits % 0x100 < 0x80 {
            (bits % 0x100) as i8
        } else {
            (bits % 0x100 - 0x100) as i8
        }
    }

    proof fn lemma_size() {
    }

    proof fn lemma_bits_bound(self) {
        lemma_pow256_values();
    }

    proof fn lemma_of_bits_roundtrip(self) {
    }

    fn size() -> u32 {
        1
    }

    fn bits(self) -> u64 {
        if self >= 0 {
            self as u64
        } else {
            (self as i16 + 0x100) as u64
        }
    }

    fn of_bits(bits: u64) -> Self {
        let m = bits % 0x100;
        if m < 0x80 {
            m as i8
        } else {
            (m as i16 - 0x100) as i8
        }
    }
}

impl Prim for i16 {
    open spec fn spec_size() -> nat {
        2
    }

    open spec fn spec_bits(self) -> u64 {
        if self >= 0 {
            self as u64
        } else {
            (self + 0x1_0000) as u64
        }
    }

    open spec fn spec_of_bits(bits: u64) -> Self {
        if bits % 0x1_0000 < 0x8000 {
            (bits % 0x1_0000) as i16
        } else {
            (bits % 0x1_0000 - 0x1_0000) as i16
        }
    }

    proof fn lemma_size() {
    }

    proof fn lemma_bits_bound(self) {
        lemma_pow256_values();
    }

    proof fn lemma_of_bits_roundtrip(self) {
    }

    fn size() -> u32 {
        2
    }

    fn bits(self) -> u64 {
        if self >= 0 {
            self as u64
        } else {
            (self as i32 + 0x1_0000) as u64
        }
    }

    fn of_bits(bits: u64) -> Self {
        let m = bits % 0x1_0000;
        if m < 0x8000 {
            m as i16
        } else {
            (m as i32 - 0x1_0000) as i16
        }
    }
}

impl Prim for i32 {
    open spec fn spec_size() -> nat {
        4
    }

    open spec fn spec_bits(self) -> u64 {
        if self >= 0 {
            self as u64
        } else {
            (self + 0x1_0000_0000) as u64
        }
    }

    open spec fn spec_of_bits(bits: u64) -> Self {
        if bits % 0x1_0000_0000 < 0x8000_0000 {
            (bits % 0x1_0000_0000) as i32
        } else {
            (bits % 0x1_0000_0000 - 0x1_0000_0000) as i32
        }
    }

    proof fn lemma_size() {
    }

    proof fn lemma_bits_bound(self) {
        lemma_pow256_values();
    }

    proof fn lemma_of_bits_roundtrip(self) {
    }

    fn size() -> u32 {
        4
    }

    fn bits(self) -> u64 {
        if self >= 0 {
            self as u64
        } else {
            (self as i64 + 0x1_0000_0000) as u64
        }
    }

    fn of_bits(bits: u64) -> Self {
        let m = bits % 0x1_0000_0000;
        if m < 0x8000_0000 {
            m as i32
        } else {
            (m as i64 - 0x1_0000_0000) as i32
        }
    }
}

impl Prim for i64 {
    open spec fn spec_size() -> nat {
        8
    }

    open spec fn spec_bits(self) -> u64 {
        if self >= 0 {
            self as u64
        } else {
            (self + 0x1_0000_0000_0000_0000) as u64
        }
    }

    open spec fn spec_of_bits(bits: u64) -> Self {
        if bits < 0x8000_0000_0000_0000 {
            bits as i64
        } else {
            (bits - 0x1_0000_0000_0000_0000) as i64
        }
    }

    proof fn lemma_size() {
    }

    proof fn lemma_bits_bound(self) {
        lemma_pow256_values();
    }

    proof fn lemma_of_bits_roundtrip(self) {
    }

    fn size() -> u32 {
        8
    }

    fn bits(self) -> u64 {
        if self >= 0 {
            self as u64
        } else {
            ((self as i128) + 0x1_0000_0000_0000_0000i128) as u64
        }
    }

    fn of_bits(bits: u64) -> Self {
        if bits < 0x8000_0000_0000_0000 {
            bits as i64
        } else {
            ((bits as i128) - 0x1_0000_0000_0000_0000i128) as i64
        }
    }
}

/// Round trip through the big-endian codec: for every value `x` of any of
/// the eight widths, encoding `x`'s pattern big-endian in the type's width
/// and decoding the bytes yields `x` back. This is the law behind writing a
/// value big-endian and then reading it big-endian at the same offset.
pub proof fn lemma_be_roundtrip<T: Prim>(x: T)
    ensures
        T::spec_of_bits(be_val(be_bytes(x.spec_bits() as int, T::spec_size())) as u64) == x,
{
    x.lemma_bits_bound();
    x.lemma_of_bits_roundtrip();
    lemma_be_val_be_bytes(x.spec_bits() as int, T::spec_size());
}

/// Round trip through the little-endian codec, as [`lemma_be_roundtrip`].
pub proof fn lemma_le_roundtrip<T: Prim>(x: T)
    ensures
        T::spec_of_bits(le_val(le_bytes(x.spec_bits() as int, T::spec_size())) as u64) == x,
{
    x.lemma_bits_bound();
    x.lemma_of_bits_roundtrip();
    lemma_le_val_le_bytes(x.spec_bits() as int, T::spec_size());
}

/// The bytes a big-endian write lays down are the reverse of those the
/// little-endian write of the same value lays down.
pub proof fn lemma_be_bytes_reverse_of_le_bytes<T: Prim>(x: T)
    ensures
        be_bytes(x.spec_bits() as int, T::spec_size()) == le_bytes(
            x.spec_bits() as int,
            T::spec_size(),
        ).reverse(),
{
    let v = x.spec_bits() as int;
    let n = T::spec_size();
    lemma_le_bytes_is_reverse_of_be_bytes(v, n);
    lemma_be_bytes_len(v, n);
    lemma_le_bytes_len(v, n);
    assert(be_bytes(v, n) =~= le_bytes(v, n).reverse());
}

} // verus!
