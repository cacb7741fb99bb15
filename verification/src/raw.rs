//! The raw buffer handle: backing bytes plus four cursors.
//!
//! A [`RawIobuf`] holds its backing bytes together with the packed
//! `lo_min`/owned word and the `lo`, `hi`, `hi_max` cursors. The abstract
//! value of a handle is an [`IobufModel`]: the byte sequence, the owned flag
//! and the four cursors as unbounded integers. Every operation's contract is
//! stated against that model.

use vstd::prelude::*;
use vstd::string::StringSliceAdditionalSpecFns;
use crate::endian::{be_bytes, be_val, le_bytes, le_val, pow256};
use crate::endian::{lemma_be_bytes_index, lemma_be_bytes_len, lemma_be_val_push};
use crate::endian::{lemma_le_bytes_index, lemma_le_bytes_len, lemma_pow256_increases};
use crate::endian::{lemma_pow256_pos, lemma_pow256_values};
use crate::prim::Prim;

verus! {

/// Number of bits in a machine word on the supported targets.
pub const TARGET_WORD_SIZE: usize = 64;

/// The largest buffer a handle can describe. Limiting sizes to 31 bits lets
/// `lo_min` share one 32-bit word with the owned flag and keeps the handle at
/// a pointer plus 16 bytes.
pub const MAX_BUFFER_LEN: usize = 0x7FFF_FFFF - 3 * TARGET_WORD_SIZE;

/// The bit of the packed word that records whether the buffer is owned.
pub const OWNED_MASK: u32 = 0x8000_0000;

/// The bits of the packed word that hold `lo_min`.
pub const LO_MIN_MASK: u32 = 0x7FFF_FFFF;

/// The abstract value of a handle: the backing bytes, whether the handle owns
/// them, and the four cursors `lo_min <= lo <= hi <= hi_max`.
#[verifier::ext_equal]
pub ghost struct IobufModel {
    pub bytes: Seq<u8>,
    pub owned: bool,
    pub lo_min: int,
    pub lo: int,
    pub hi: int,
    pub hi_max: int,
}

/// `s` with the bytes starting at `at` replaced by `repl`.
pub open spec fn splice(s: Seq<u8>, at: int, repl: Seq<u8>) -> Seq<u8> {
    s.subrange(0, at) + repl + s.subrange(at + repl.len(), s.len() as int)
}

/// A sequence that agrees with `repl` on `[at, at + repl.len())` and with
/// `orig` everywhere else is exactly the splice of `repl` into `orig`.
proof fn lemma_splice_pointwise(orig: Seq<u8>, cur: Seq<u8>, at: int, repl: Seq<u8>)
    requires
        0 <= at,
        at + repl.len() <= orig.len(),
        cur.len() == orig.len(),
        forall|j: int| 0 <= j < repl.len() ==> #[trigger] cur[at + j] == repl[j],
        forall|k: int|
            0 <= k < cur.len() && !(at <= k < at + repl.len()) ==> cur[k] == orig[k],
    ensures
        cur == splice(orig, at, repl),
{
    let sp = splice(orig, at, repl);
    assert forall|k: int| 0 <= k < sp.len() implies sp[k] == cur[k] by {
        if k < at {
            assert(sp[k] == orig.subrange(0, at)[k]);
            assert(sp[k] == orig[k]);
        } else if k < at + repl.len() {
            assert(sp[k] == repl[k - at]);
            assert(cur[at + (k - at)] == repl[k - at]);
        } else {
            assert(sp[k] == orig.subrange(at + repl.len(), orig.len() as int)[k - at
                - repl.len()]);
            assert(sp[k] == orig[k]);
        }
    };
    assert(cur =~= sp);
}

impl IobufModel {
    /// The invariant every handle reachable through the public API satisfies:
    /// cursors ordered, limits inside the backing bytes, size within bounds.
    pub open spec fn wf(self) -> bool {
        &&& 0 <= self.lo_min <= self.lo <= self.hi <= self.hi_max <= self.bytes.len()
        &&& self.bytes.len() <= MAX_BUFFER_LEN
    }

    /// The number of bytes in the window `[lo, hi)`.
    pub open spec fn len(self) -> int {
        self.hi - self.lo
    }

    /// The number of bytes in the limits `[lo_min, hi_max)`.
    pub open spec fn cap(self) -> int {
        self.hi_max - self.lo_min
    }

    /// The bytes of the window.
    pub open spec fn window(self) -> Seq<u8> {
        self.bytes.subrange(self.lo, self.hi)
    }

    /// The bytes of the limits.
    pub open spec fn limit_bytes(self) -> Seq<u8> {
        self.bytes.subrange(self.lo_min, self.hi_max)
    }

    /// Move the start of the window up by `n`.
    pub open spec fn advance(self, n: int) -> Self {
        IobufModel { lo: self.lo + n, ..self }
    }

    /// Move the end of the window up by `n`.
    pub open spec fn extend(self, n: int) -> Self {
        IobufModel { hi: self.hi + n, ..self }
    }

    /// Make the window exactly `n` bytes long, keeping its start.
    pub open spec fn resize(self, n: int) -> Self {
        IobufModel { hi: self.lo + n, ..self }
    }

    /// Move the start of the window back to the lower limit.
    pub open spec fn rewind(self) -> Self {
        IobufModel { lo: self.lo_min, ..self }
    }

    /// Expand the window to the full limits.
    pub open spec fn reset(self) -> Self {
        IobufModel { lo: self.lo_min, hi: self.hi_max, ..self }
    }

    /// Make the window the region behind it: `[lo_min, lo)`.
    pub open spec fn flip_lo(self) -> Self {
        IobufModel { lo: self.lo_min, hi: self.lo, ..self }
    }

    /// Make the window the region ahead of it: `[hi, hi_max)`.
    pub open spec fn flip_hi(self) -> Self {
        IobufModel { lo: self.hi, hi: self.hi_max, ..self }
    }

    /// Lock the limits down to the current window.
    pub open spec fn narrow(self) -> Self {
        IobufModel { lo_min: self.lo, hi_max: self.hi, ..self }
    }

    /// Move the window to `[lo + pos, lo + pos + n)`, keeping the limits.
    pub open spec fn sub_window(self, pos: int, n: int) -> Self {
        IobufModel { lo: self.lo + pos, hi: self.lo + pos + n, ..self }
    }

    /// Move the window to `[lo + pos, lo + pos + n)` and lock the limits to it.
    pub open spec fn sub(self, pos: int, n: int) -> Self {
        self.sub_window(pos, n).narrow()
    }

    /// Replace `lo_min`, keeping everything else.
    pub open spec fn with_lo_min(self, v: int) -> Self {
        IobufModel { lo_min: v, ..self }
    }

    /// Give up ownership: the owned flag and `lo_min` are cleared.
    pub open spec fn released(self) -> Self {
        IobufModel { owned: false, lo_min: 0, ..self }
    }

    /// Copy the window down to the lower limit, then open the window onto
    /// the bytes ahead of the copy.
    pub open spec fn compact(self) -> Self {
        IobufModel {
            bytes: splice(self.bytes, self.lo_min, self.window()),
            lo: self.lo_min + self.len(),
            hi: self.hi_max,
            ..self
        }
    }

    /// `other`'s window begins exactly where `self`'s ends, and the combined
    /// window still fits under `self`'s upper limit.
    pub open spec fn is_extended_by(self, other: Self) -> bool {
        &&& self.hi == other.lo
        &&& self.hi + other.len() <= self.hi_max
    }

    /// The bytes at window offset `pos` replaced by `repl`; cursors keep
    /// their places.
    pub open spec fn poke_bytes(self, pos: int, repl: Seq<u8>) -> Self {
        IobufModel { bytes: splice(self.bytes, self.lo + pos, repl), ..self }
    }
}

/// A handle onto a byte buffer: a window `[lo, hi)` inside limits
/// `[lo_min, hi_max)`. The handle owns its backing bytes; a handle produced
/// by a clone or a split carries its own copy of them, so the adjacency of
/// two handles is judged by their cursors alone.
pub struct RawIobuf {
    buf: Box<Vec<u8>>,
    lo_min_and_owned_bit: u32,
    lo: u32,
    hi: u32,
    hi_max: u32,
}

impl View for RawIobuf {
    type V = IobufModel;

    closed spec fn view(&self) -> IobufModel {
        IobufModel {
            bytes: self.buf@,
            owned: self.lo_min_and_owned_bit & OWNED_MASK != 0,
            lo_min: (self.lo_min_and_owned_bit & LO_MIN_MASK) as int,
            lo: self.lo as int,
            hi: self.hi as int,
            hi_max: self.hi_max as int,
        }
    }
}

/// The low 31 bits of a packed word never exceed the mask, and a word that
/// is only the owned bit has `lo_min` zero.
proof fn lemma_mask_facts(w: u32)
    by (bit_vector)
    ensures
        w & 0x7FFF_FFFF <= 0x7FFF_FFFF,
        0u32 & 0x7FFF_FFFF == 0,
        0u32 & 0x8000_0000 == 0,
        0x8000_0000u32 & 0x7FFF_FFFF == 0,
        0x8000_0000u32 & 0x8000_0000 != 0,
{
}

/// Writing a 31-bit `lo_min` into a packed word keeps the owned bit and
/// stores the value exactly.
proof fn lemma_pack_lo_min(w: u32, v: u32)
    by (bit_vector)
    requires
        v <= 0x7FFF_FFFF,
    ensures
        ((w & 0x8000_0000) | v) & 0x7FFF_FFFF == v,
        (((w & 0x8000_0000) | v) & 0x8000_0000 != 0) <==> (w & 0x8000_0000 != 0),
{
}

impl RawIobuf {
    /// A fresh owned buffer of `len` zeroed bytes; window and limits are both
    /// `[0, len)`.
    pub fn new(len: usize) -> (r: RawIobuf)
        requires
            len <= MAX_BUFFER_LEN,
        ensures
            r@.wf(),
            r@.owned,
            r@.lo_min == 0 && r@.lo == 0 && r@.hi == len && r@.hi_max == len,
            r@.bytes == Seq::new(len as nat, |i: int| 0u8),
    {
        let mut buf: Vec<u8> = Vec::new();
        while buf.len() < len
            invariant
                buf@.len() <= len,
                forall|i: int| 0 <= i < buf@.len() ==> buf@[i] == 0u8,
            decreases len - buf@.len(),
        {
            buf.push(0u8);
        }
        let r = RawIobuf {
            buf: Box::new(buf),
            lo_min_and_owned_bit: OWNED_MASK,
            lo: 0,
            hi: len as u32,
            hi_max: len as u32,
        };
        proof {
            lemma_mask_facts(0);
            assert(r@.bytes =~= Seq::new(len as nat, |i: int| 0u8));
        }
        r
    }

    /// The empty handle: no bytes, all cursors zero, not owned.
    pub fn empty() -> (r: RawIobuf)
        ensures
            r@.wf(),
            !r@.owned,
            r@.lo_min == 0 && r@.lo == 0 && r@.hi == 0 && r@.hi_max == 0,
            r@.bytes == Seq::<u8>::empty(),
    {
        let r = RawIobuf {
            buf: Box::new(Vec::new()),
            lo_min_and_owned_bit: 0,
            lo: 0,
            hi: 0,
            hi_max: 0,
        };
        proof {
            lemma_mask_facts(0);
            assert(r@.bytes =~= Seq::<u8>::empty());
        }
        r
    }

    /// A handle onto the bytes of `s`; window and limits are both
    /// `[0, s.len())` and the handle is not marked owned.
    pub fn from_slice(s: &[u8]) -> (r: RawIobuf)
        requires
            s@.len() <= MAX_BUFFER_LEN,
        ensures
            r@.wf(),
            !r@.owned,
            r@.lo_min == 0 && r@.lo == 0 && r@.hi == s@.len() && r@.hi_max == s@.len(),
            r@.bytes == s@,
    {
        let mut buf: Vec<u8> = Vec::new();
        buf.extend_from_slice(s);
        let n = buf.len();
        let r = RawIobuf {
            buf: Box::new(buf),
            lo_min_and_owned_bit: 0,
            lo: 0,
            hi: n as u32,
            hi_max: n as u32,
        };
        proof {
            lemma_mask_facts(0);
            assert(r@.bytes =~= s@);
        }
        r
    }

    /// A fresh owned buffer holding a copy of `s`; window and limits are both
    /// `[0, s.len())`.
    pub fn from_slice_copy(s: &[u8]) -> (r: RawIobuf)
        requires
            s@.len() <= MAX_BUFFER_LEN,
        ensures
            r@.wf(),
            r@.owned,
            r@.lo_min == 0 && r@.lo == 0 && r@.hi == s@.len() && r@.hi_max == s@.len(),
            r@.bytes == s@,
    {
        let mut buf: Vec<u8> = Vec::new();
        buf.extend_from_slice(s);
        let n = buf.len();
        let r = RawIobuf {
            buf: Box::new(buf),
            lo_min_and_owned_bit: OWNED_MASK,
            lo: 0,
            hi: n as u32,
            hi_max: n as u32,
        };
        proof {
            lemma_mask_facts(0);
            assert(r@.bytes =~= s@);
        }
        r
    }

    /// A handle onto the bytes of `s`, as [`RawIobuf::from_slice`].
    pub fn from_str(s: &str) -> (r: RawIobuf)
        requires
            s.spec_bytes().len() <= MAX_BUFFER_LEN,
        ensures
            r@.wf(),
            !r@.owned,
            r@.lo_min == 0 && r@.lo == 0 && r@.hi == s.spec_bytes().len()
                && r@.hi_max == s.spec_bytes().len(),
            r@.bytes == s.spec_bytes(),
    {
        RawIobuf::from_slice(s.as_bytes())
    }

    /// A fresh owned buffer holding a copy of the bytes of `s`, as
    /// [`RawIobuf::from_slice_copy`].
    pub fn from_str_copy(s: &str) -> (r: RawIobuf)
        requires
            s.spec_bytes().len() <= MAX_BUFFER_LEN,
        ensures
            r@.wf(),
            r@.owned,
            r@.lo_min == 0 && r@.lo == 0 && r@.hi == s.spec_bytes().len()
                && r@.hi_max == s.spec_bytes().len(),
            r@.bytes == s.spec_bytes(),
    {
        RawIobuf::from_slice_copy(s.as_bytes())
    }

    /// The lower limit of the handle.
    pub fn lo_min(&self) -> (r: u32)
        ensures
            r == self@.lo_min,
    {
        proof {
            lemma_mask_facts(self.lo_min_and_owned_bit);
        }
        self.lo_min_and_owned_bit & LO_MIN_MASK
    }

    /// Replace the lower limit. The caller must keep it at or below the
    /// window start; the owned flag is untouched.
    pub fn set_lo_min(&mut self, new_value: u32)
        requires
            old(self)@.wf(),
            new_value <= old(self)@.lo,
        ensures
            final(self)@.wf(),
            final(self)@ == old(self)@.with_lo_min(new_value as int),
    {
        proof {
            lemma_pack_lo_min(self.lo_min_and_owned_bit, new_value);
        }
        self.lo_min_and_owned_bit &= OWNED_MASK;
        self.lo_min_and_owned_bit |= new_value;
        proof {
            assert(final(self)@ =~= old(self)@.with_lo_min(new_value as int));
        }
    }

    /// Whether the handle owns its backing bytes.
    pub fn is_owned(&self) -> (r: bool)
        ensures
            r == self@.owned,
    {
        self.lo_min_and_owned_bit & OWNED_MASK != 0
    }

    /// The number of bytes in the window.
    pub fn len(&self) -> (r: u32)
        requires
            self@.wf(),
        ensures
            r == self@.len(),
    {
        self.hi - self.lo
    }

    /// The number of bytes in the limits.
    pub fn cap(&self) -> (r: u32)
        requires
            self@.wf(),
        ensures
            r == self@.cap(),
    {
        let lo_min = self.lo_min();
        self.hi_max - lo_min
    }

    /// Whether the window is empty.
    pub fn is_empty(&self) -> (r: bool)
        ensures
            r == (self@.hi == self@.lo),
    {
        self.hi == self.lo
    }

    /// The window start cursor.
    pub fn lo(&self) -> (r: u32)
        ensures
            r == self@.lo,
    {
        self.lo
    }

    /// The window end cursor.
    pub fn hi(&self) -> (r: u32)
        ensures
            r == self@.hi,
    {
        self.hi
    }

    /// The upper limit cursor.
    pub fn hi_max(&self) -> (r: u32)
        ensures
            r == self@.hi_max,
    {
        self.hi_max
    }

    /// The number of bytes between the lower limit and the window start.
    pub fn lo_space(&self) -> (r: u32)
        requires
            self@.wf(),
        ensures
            r == self@.lo - self@.lo_min,
    {
        let lo_min = self.lo_min();
        self.lo - lo_min
    }

    /// The number of bytes between the window end and the upper limit.
    pub fn hi_space(&self) -> (r: u32)
        requires
            self@.wf(),
        ensures
            r == self@.hi_max - self@.hi,
    {
        self.hi_max - self.hi
    }

    /// Whether `[pos, pos + len)` lies inside the window.
    pub fn check_range(&self, pos: u64, len: u64) -> (r: Result<(), ()>)
        requires
            self@.wf(),
        ensures
            r.is_ok() <==> pos + len <= self@.len(),
    {
        let l = self.len() as u64;
        if pos <= l && len <= l - pos {
            Ok(())
        } else {
            Err(())
        }
    }

    /// [`RawIobuf::check_range`] taking 32-bit arguments.
    pub fn check_range_u32(&self, pos: u32, len: u32) -> (r: Result<(), ()>)
        requires
            self@.wf(),
        ensures
            r.is_ok() <==> pos + len <= self@.len(),
    {
        self.check_range(pos as u64, len as u64)
    }

    /// [`RawIobuf::check_range`] taking a machine-sized length.
    pub fn check_range_uint(&self, pos: u32, len: usize) -> (r: Result<(), ()>)
        requires
            self@.wf(),
        ensures
            r.is_ok() <==> pos + len <= self@.len(),
    {
        self.check_range(pos as u64, len as u64)
    }

    /// [`RawIobuf::check_range_u32`] for callers that have already bounded
    /// the range; out-of-range arguments are excluded by the precondition.
    pub fn check_range_u32_fail(&self, pos: u32, len: u32)
        requires
            self@.wf(),
            pos + len <= self@.len(),
    {
        let r = self.check_range_u32(pos, len);
        assert(r.is_ok());
    }

    /// [`RawIobuf::check_range_uint`] for callers that have already bounded
    /// the range; out-of-range arguments are excluded by the precondition.
    pub fn check_range_uint_fail(&self, pos: u32, len: usize)
        requires
            self@.wf(),
            pos + len <= self@.len(),
    {
        let r = self.check_range_uint(pos, len);
        assert(r.is_ok());
    }

    /// The bounds check an unchecked operation would perform in a debugging
    /// build; here the precondition excludes the failing inputs, so the
    /// released form checks nothing.
    pub fn debug_check_range_u32(&self, pos: u32, len: u32)
        requires
            self@.wf(),
            pos + len <= self@.len(),
    {
    }

    /// As [`RawIobuf::debug_check_range_u32`], taking a machine-sized length.
    pub fn debug_check_range_uint(&self, pos: u32, len: usize)
        requires
            self@.wf(),
            pos + len <= self@.len(),
    {
    }

    /// Lock the limits down to the current window.
    pub fn narrow(&mut self)
        requires
            old(self)@.wf(),
        ensures
            final(self)@.wf(),
            final(self)@ == old(self)@.narrow(),
    {
        let lo = self.lo;
        self.set_lo_min(lo);
        self.hi_max = self.hi;
        proof {
            assert(self@ =~= old(self)@.narrow());
        }
    }

    /// Move the window start up by `len` bytes, dropping them from view.
    pub fn advance(&mut self, len: u32) -> (r: Result<(), ()>)
        requires
            old(self)@.wf(),
        ensures
            final(self)@.wf(),
            r.is_ok() <==> len <= old(self)@.len(),
            r.is_ok() ==> final(self)@ == old(self)@.advance(len as int),
            r.is_err() ==> final(self)@ == old(self)@,
    {
        match self.check_range_u32(0, len) {
            Ok(()) => {
                self.unsafe_advance(len);
                Ok(())
            },
            Err(()) => Err(()),
        }
    }

    /// [`RawIobuf::advance`] with the bound as a precondition.
    pub fn unsafe_advance(&mut self, len: u32)
        requires
            old(self)@.wf(),
            len <= old(self)@.len(),
        ensures
            final(self)@.wf(),
            final(self)@ == old(self)@.advance(len as int),
    {
        self.lo = self.lo + len;
        proof {
            assert(self@ =~= old(self)@.advance(len as int));
        }
    }

    /// Move the window end up by `len` bytes, exposing bytes ahead of it.
    pub fn extend(&mut self, len: u32) -> (r: Result<(), ()>)
        requires
            old(self)@.wf(),
        ensures
            final(self)@.wf(),
            r.is_ok() <==> old(self)@.hi + len <= old(self)@.hi_max,
            r.is_ok() ==> final(self)@ == old(self)@.extend(len as int),
            r.is_err() ==> final(self)@ == old(self)@,
    {
        let hi = self.hi as u64;
        let hi_max = self.hi_max as u64;
        let new_hi = hi + len as u64;
        if new_hi > hi_max {
            Err(())
        } else {
            self.unsafe_extend(len);
            Ok(())
        }
    }

    /// [`RawIobuf::extend`] with the bound as a precondition.
    pub fn unsafe_extend(&mut self, len: u32)
        requires
            old(self)@.wf(),
            old(self)@.hi + len <= old(self)@.hi_max,
        ensures
            final(self)@.wf(),
            final(self)@ == old(self)@.extend(len as int),
    {
        self.hi = self.hi + len;
        proof {
            assert(self@ =~= old(self)@.extend(len as int));
        }
    }

    /// Make the window exactly `len` bytes long, keeping its start.
    pub fn resize(&mut self, len: u32) -> (r: Result<(), ()>)
        requires
            old(self)@.wf(),
        ensures
            final(self)@.wf(),
            r.is_ok() <==> old(self)@.lo + len <= old(self)@.hi_max,
            r.is_ok() ==> final(self)@ == old(self)@.resize(len as int),
            r.is_err() ==> final(self)@ == old(self)@,
    {
        let new_hi = self.lo as u64 + len as u64;
        if new_hi > self.hi_max as u64 {
            Err(())
        } else {
            self.hi = new_hi as u32;
            proof {
                assert(self@ =~= old(self)@.resize(len as int));
            }
            Ok(())
        }
    }

    /// [`RawIobuf::resize`] with the bound as a precondition.
    pub fn unsafe_resize(&mut self, len: u32)
        requires
            old(self)@.wf(),
            old(self)@.lo + len <= old(self)@.hi_max,
        ensures
            final(self)@.wf(),
            final(self)@ == old(self)@.resize(len as int),
    {
        self.hi = self.lo + len;
        proof {
            assert(self@ =~= old(self)@.resize(len as int));
        }
    }

    /// Move the window start back to the lower limit.
    pub fn rewind(&mut self)
        requires
            old(self)@.wf(),
        ensures
            final(self)@.wf(),
            final(self)@ == old(self)@.rewind(),
    {
        self.lo = self.lo_min();
        proof {
            assert(self@ =~= old(self)@.rewind());
        }
    }

    /// Expand the window to the full limits.
    pub fn reset(&mut self)
        requires
            old(self)@.wf(),
        ensures
            final(self)@.wf(),
            final(self)@ == old(self)@.reset(),
    {
        self.lo = self.lo_min();
        self.hi = self.hi_max;
        proof {
            assert(self@ =~= old(self)@.reset());
        }
    }

    /// Make the window the region behind it: `[lo_min, lo)`.
    pub fn flip_lo(&mut self)
        requires
            old(self)@.wf(),
        ensures
            final(self)@.wf(),
            final(self)@ == old(self)@.flip_lo(),
    {
        self.hi = self.lo;
        self.lo = self.lo_min();
        proof {
            assert(self@ =~= old(self)@.flip_lo());
        }
    }

    /// Make the window the region ahead of it: `[hi, hi_max)`.
    pub fn flip_hi(&mut self)
        requires
            old(self)@.wf(),
        ensures
            final(self)@.wf(),
            final(self)@ == old(self)@.flip_hi(),
    {
        self.lo = self.hi;
        self.hi = self.hi_max;
        proof {
            assert(self@ =~= old(self)@.flip_hi());
        }
    }

    /// Assign all four cursors at once. The new limits must lie inside the
    /// old ones and the four values must be ordered, the new window inside
    /// the new limits; the window itself is free to move anywhere within
    /// them. Otherwise nothing changes and `Err` is returned.
    pub fn set_limits_and_window(&mut self, limits: (u32, u32), window: (u32, u32)) -> (r: Result<
        (),
        (),
    >)
        requires
            old(self)@.wf(),
        ensures
            final(self)@.wf(),
            r.is_ok() <==> {
                &&& limits.0 <= window.0 <= window.1 <= limits.1
                &&& old(self)@.lo_min <= limits.0
                &&& limits.1 <= old(self)@.hi_max
            },
            r.is_ok() ==> final(self)@ == (IobufModel {
                lo_min: limits.0 as int,
                lo: window.0 as int,
                hi: window.1 as int,
                hi_max: limits.1 as int,
                ..old(self)@
            }),
            r.is_err() ==> final(self)@ == old(self)@,
    {
        let (new_lo_min, new_hi_max) = limits;
        let (new_lo, new_hi) = window;
        let lo_min = self.lo_min();
        if new_hi_max < new_lo_min {
            return Err(());
        }
        if new_hi < new_lo {
            return Err(());
        }
        if new_lo < new_lo_min {
            return Err(());
        }
        if new_hi > new_hi_max {
            return Err(());
        }
        if new_lo_min < lo_min {
            return Err(());
        }
        if new_hi_max > self.hi_max {
            return Err(());
        }
        self.lo = new_lo;
        self.hi = new_hi;
        self.hi_max = new_hi_max;
        self.set_lo_min(new_lo_min);
        proof {
            assert(self@ =~= (IobufModel {
                lo_min: new_lo_min as int,
                lo: new_lo as int,
                hi: new_hi as int,
                hi_max: new_hi_max as int,
                ..old(self)@
            }));
        }
        Ok(())
    }

    /// Move the window to `[lo + pos, lo + pos + len)` within the limits.
    pub fn sub_window(&mut self, pos: u32, len: u32) -> (r: Result<(), ()>)
        requires
            old(self)@.wf(),
        ensures
            final(self)@.wf(),
            r.is_ok() <==> pos + len <= old(self)@.len(),
            r.is_ok() ==> final(self)@ == old(self)@.sub_window(pos as int, len as int),
            r.is_err() ==> final(self)@ == old(self)@,
    {
        match self.check_range_u32(pos, len) {
            Ok(()) => {
                self.unsafe_sub_window(pos, len);
                Ok(())
            },
            Err(()) => Err(()),
        }
    }

    /// Move the window to `[lo + pos, hi_max)` within the limits.
    pub fn sub_window_from(&mut self, pos: u32) -> (r: Result<(), ()>)
        requires
            old(self)@.wf(),
        ensures
            final(self)@.wf(),
            r.is_ok() <==> pos <= old(self)@.len(),
            r.is_ok() ==> final(self)@ == (IobufModel {
                lo: old(self)@.lo + pos,
                hi: old(self)@.hi_max,
                ..old(self)@
            }),
            r.is_err() ==> final(self)@ == old(self)@,
    {
        match self.check_range_u32(pos, 0) {
            Ok(()) => {
                self.unsafe_sub_window_from(pos);
                Ok(())
            },
            Err(()) => Err(()),
        }
    }

    /// Shrink the window to its first `len` bytes.
    pub fn sub_window_to(&mut self, len: u32) -> (r: Result<(), ()>)
        requires
            old(self)@.wf(),
        ensures
            final(self)@.wf(),
            r.is_ok() <==> len <= old(self)@.len(),
            r.is_ok() ==> final(self)@ == old(self)@.resize(len as int),
            r.is_err() ==> final(self)@ == old(self)@,
    {
        match self.check_range_u32(0, len) {
            Ok(()) => {
                self.unsafe_sub_window_to(len);
                Ok(())
            },
            Err(()) => Err(()),
        }
    }

    /// [`RawIobuf::sub_window`] with the bound as a precondition.
    pub fn unsafe_sub_window(&mut self, pos: u32, len: u32)
        requires
            old(self)@.wf(),
            pos + len <= old(self)@.len(),
        ensures
            final(self)@.wf(),
            final(self)@ == old(self)@.sub_window(pos as int, len as int),
    {
        self.unsafe_resize(pos);
        self.flip_hi();
        self.unsafe_resize(len);
        proof {
            assert(self@ =~= old(self)@.sub_window(pos as int, len as int));
        }
    }

    /// [`RawIobuf::sub_window_from`] with the bound as a precondition.
    pub fn unsafe_sub_window_from(&mut self, pos: u32)
        requires
            old(self)@.wf(),
            pos <= old(self)@.len(),
        ensures
            final(self)@.wf(),
            final(self)@ == (IobufModel {
                lo: old(self)@.lo + pos,
                hi: old(self)@.hi_max,
                ..old(self)@
            }),
    {
        self.unsafe_resize(pos);
        self.flip_hi();
        proof {
            assert(self@ =~= (IobufModel {
                lo: old(self)@.lo + pos,
                hi: old(self)@.hi_max,
                ..old(self)@
            }));
        }
    }

    /// [`RawIobuf::sub_window_to`] with the bound as a precondition.
    pub fn unsafe_sub_window_to(&mut self, len: u32)
        requires
            old(self)@.wf(),
            len <= old(self)@.len(),
        ensures
            final(self)@.wf(),
            final(self)@ == old(self)@.resize(len as int),
    {
        self.unsafe_resize(len);
    }

    /// Move the window to `[lo + pos, lo + pos + len)` and lock the limits
    /// down to it.
    pub fn sub(&mut self, pos: u32, len: u32) -> (r: Result<(), ()>)
        requires
            old(self)@.wf(),
        ensures
            final(self)@.wf(),
            r.is_ok() <==> pos + len <= old(self)@.len(),
            r.is_ok() ==> final(self)@ == old(self)@.sub(pos as int, len as int),
            r.is_err() ==> final(self)@ == old(self)@,
    {
        match self.check_range_u32(pos, len) {
            Ok(()) => {
                self.unsafe_sub(pos, len);
                Ok(())
            },
            Err(()) => Err(()),
        }
    }

    /// Move the window to `[lo + pos, hi_max)` and lock the limits down to it.
    pub fn sub_from(&mut self, pos: u32) -> (r: Result<(), ()>)
        requires
            old(self)@.wf(),
        ensures
            final(self)@.wf(),
            r.is_ok() <==> pos <= old(self)@.len(),
            r.is_ok() ==> final(self)@ == (IobufModel {
                lo_min: old(self)@.lo + pos,
                lo: old(self)@.lo + pos,
                hi: old(self)@.hi_max,
                hi_max: old(self)@.hi_max,
                ..old(self)@
            }),
            r.is_err() ==> final(self)@ == old(self)@,
    {
        match self.check_range_u32(pos, 0) {
            Ok(()) => {
                self.unsafe_sub_from(pos);
                Ok(())
            },
            Err(()) => Err(()),
        }
    }

    /// Shrink the window to its first `len` bytes and lock the limits down
    /// to it.
    pub fn sub_to(&mut self, len: u32) -> (r: Result<(), ()>)
        requires
            old(self)@.wf(),
        ensures
            final(self)@.wf(),
            r.is_ok() <==> len <= old(self)@.len(),
            r.is_ok() ==> final(self)@ == old(self)@.resize(len as int).narrow(),
            r.is_err() ==> final(self)@ == old(self)@,
    {
        match self.check_range_u32(0, len) {
            Ok(()) => {
                self.unsafe_sub_to(len);
                Ok(())
            },
            Err(()) => Err(()),
        }
    }

    /// [`RawIobuf::sub`] with the bound as a precondition.
    pub fn unsafe_sub(&mut self, pos: u32, len: u32)
        requires
            old(self)@.wf(),
            pos + len <= old(self)@.len(),
        ensures
            final(self)@.wf(),
            final(self)@ == old(self)@.sub(pos as int, len as int),
    {
        self.unsafe_sub_window(pos, len);
        self.narrow();
        proof {
            assert(self@ =~= old(self)@.sub(pos as int, len as int));
        }
    }

    /// [`RawIobuf::sub_from`] with the bound as a precondition.
    pub fn unsafe_sub_from(&mut self, pos: u32)
        requires
            old(self)@.wf(),
            pos <= old(self)@.len(),
        ensures
            final(self)@.wf(),
            final(self)@ == (IobufModel {
                lo_min: old(self)@.lo + pos,
                lo: old(self)@.lo + pos,
                hi: old(self)@.hi_max,
                hi_max: old(self)@.hi_max,
                ..old(self)@
            }),
    {
        self.unsafe_sub_window_from(pos);
        self.narrow();
        proof {
            assert(self@ =~= (IobufModel {
                lo_min: old(self)@.lo + pos,
                lo: old(self)@.lo + pos,
                hi: old(self)@.hi_max,
                hi_max: old(self)@.hi_max,
                ..old(self)@
            }));
        }
    }

    /// [`RawIobuf::sub_to`] with the bound as a precondition.
    pub fn unsafe_sub_to(&mut self, len: u32)
        requires
            old(self)@.wf(),
            len <= old(self)@.len(),
        ensures
            final(self)@.wf(),
            final(self)@ == old(self)@.resize(len as int).narrow(),
    {
        self.unsafe_sub_window_to(len);
        self.narrow();
        proof {
            assert(self@ =~= old(self)@.resize(len as int).narrow());
        }
    }

    /// A handle onto the same window and limits, with its own copy of the
    /// backing bytes. The counterpart of cloning under the thread-safe
    /// reference-count discipline; here every handle carries its bytes, so
    /// no count is kept.
    pub fn clone_atomic(&self) -> (r: RawIobuf)
        requires
            self@.wf(),
        ensures
            r@ == self@,
    {
        self.clone_nonatomic()
    }

    /// A handle onto the same window and limits, with its own copy of the
    /// backing bytes. The counterpart of cloning under the single-thread
    /// reference-count discipline.
    pub fn clone_nonatomic(&self) -> (r: RawIobuf)
        requires
            self@.wf(),
        ensures
            r@ == self@,
    {
        let buf: Vec<u8> = (*self.buf).clone();
        let r = RawIobuf {
            buf: Box::new(buf),
            lo_min_and_owned_bit: self.lo_min_and_owned_bit,
            lo: self.lo,
            hi: self.hi,
            hi_max: self.hi_max,
        };
        proof {
            assert(r@.bytes =~= self@.bytes);
            assert(r@ =~= self@);
        }
        r
    }

    /// Make `self` describe the same buffer state as `source`.
    pub fn clone_from_atomic(&mut self, source: &RawIobuf)
        requires
            old(self)@.wf(),
            source@.wf(),
        ensures
            final(self)@.wf(),
            final(self)@ == source@,
    {
        *self = source.clone_atomic();
    }

    /// Make `self` describe the same buffer state as `source`.
    pub fn clone_from_nonatomic(&mut self, source: &RawIobuf)
        requires
            old(self)@.wf(),
            source@.wf(),
        ensures
            final(self)@.wf(),
            final(self)@ == source@,
    {
        *self = source.clone_nonatomic();
    }

    /// End this handle's claim on its allocation: the owned flag and the
    /// packed `lo_min` word are cleared so a later release does nothing.
    /// The counterpart of dropping under the thread-safe reference-count
    /// discipline.
    pub fn drop_atomic(&mut self)
        requires
            old(self)@.wf(),
        ensures
            final(self)@.wf(),
            final(self)@ == old(self)@.released(),
    {
        self.drop_nonatomic()
    }

    /// End this handle's claim on its allocation, as
    /// [`RawIobuf::drop_atomic`], under the single-thread discipline.
    pub fn drop_nonatomic(&mut self)
        requires
            old(self)@.wf(),
        ensures
            final(self)@.wf(),
            final(self)@ == old(self)@.released(),
    {
        self.lo_min_and_owned_bit = 0;
        proof {
            lemma_mask_facts(0);
            assert(self@ =~= old(self)@.released());
        }
    }

    /// Whether this handle is the only claim on its allocation, under the
    /// single-thread discipline. Every owned handle here carries its bytes
    /// exclusively, so an owned handle is always unique.
    pub fn is_unique_nonatomic(&self) -> (r: bool)
        ensures
            r == self@.owned,
    {
        self.is_owned()
    }

    /// Whether this handle is the only claim on its allocation, under the
    /// thread-safe discipline.
    pub fn is_unique_atomic(&self) -> (r: bool)
        ensures
            r == self@.owned,
    {
        self.is_owned()
    }

    /// A fresh owned buffer holding a copy of the limit bytes; the window
    /// keeps its offsets relative to the lower limit.
    pub fn deep_clone(&self) -> (r: RawIobuf)
        requires
            self@.wf(),
        ensures
            r@.wf(),
            r@.owned,
            r@.bytes == self@.limit_bytes(),
            r@.lo_min == 0 && r@.hi_max == self@.cap(),
            r@.lo == self@.lo - self@.lo_min,
            r@.hi == self@.hi - self@.lo_min,
    {
        let mut b = RawIobuf::from_slice_copy(self.as_limit_slice());
        let lo_min = self.lo_min();
        b.lo = self.lo - lo_min;
        b.hi = self.hi - lo_min;
        b
    }

    /// Borrow the bytes of the limits `[lo_min, hi_max)`.
    pub fn as_limit_slice(&self) -> (r: &[u8])
        requires
            self@.wf(),
        ensures
            r@ == self@.limit_bytes(),
    {
        let lo_min = self.lo_min();
        vstd::slice::slice_subrange(self.buf.as_slice(), lo_min as usize, self.hi_max as usize)
    }

    /// Borrow the bytes of the window `[lo, hi)`.
    pub fn as_window_slice(&self) -> (r: &[u8])
        requires
            self@.wf(),
        ensures
            r@ == self@.window(),
    {
        vstd::slice::slice_subrange(self.buf.as_slice(), self.lo as usize, self.hi as usize)
    }

    /// Whether `other`'s window begins exactly where `self`'s ends and the
    /// combined window fits under `self`'s upper limit, so that
    /// [`RawIobuf::extend_with`] can reassemble the two. Adjacency is judged
    /// by the cursors alone; the handles are expected to carry the same
    /// bytes, as two halves of a split do.
    pub fn is_extended_by(&self, other: &RawIobuf) -> (r: bool)
        requires
            self@.wf(),
            other@.wf(),
        ensures
            r == self@.is_extended_by(other@),
    {
        self.hi == other.lo && self.hi as u64 + other.len() as u64 <= self.hi_max as u64
    }

    /// Grow the window over `other`'s window when the two are adjacent by
    /// [`RawIobuf::is_extended_by`]. The exposed bytes are `self`'s own
    /// backing bytes, which equal `other`'s window exactly when the two
    /// handles carry the same bytes, as two halves of a split do.
    pub fn extend_with(&mut self, other: &RawIobuf) -> (r: Result<(), ()>)
        requires
            old(self)@.wf(),
            other@.wf(),
        ensures
            final(self)@.wf(),
            r.is_ok() <==> old(self)@.is_extended_by(other@),
            r.is_ok() ==> final(self)@ == old(self)@.extend(other@.len()),
            r.is_err() ==> final(self)@ == old(self)@,
    {
        if self.is_extended_by(other) {
            self.unsafe_extend(other.len());
            Ok(())
        } else {
            Err(())
        }
    }

    /// Two handles over the same state: the first covering `[lo, lo + pos)`,
    /// the second `[lo + pos, hi)`, both under the full limits.
    pub fn split_at_nonatomic(&self, pos: u32) -> (r: Result<(RawIobuf, RawIobuf), ()>)
        requires
            self@.wf(),
        ensures
            r.is_ok() <==> pos <= self@.len(),
            r.is_ok() ==> {
                &&& r->Ok_0.0@.wf()
                &&& r->Ok_0.1@.wf()
                &&& r->Ok_0.0@ == self@.resize(pos as int)
                &&& r->Ok_0.1@ == self@.advance(pos as int)
                &&& r->Ok_0.0@.is_extended_by(r->Ok_0.1@)
                &&& r->Ok_0.0@.hi == r->Ok_0.1@.lo
            },
    {
        match self.check_range_u32(pos, 0) {
            Ok(()) => Ok(self.unsafe_split_at_nonatomic(pos)),
            Err(()) => Err(()),
        }
    }

    /// [`RawIobuf::split_at_nonatomic`] with the bound as a precondition.
    pub fn unsafe_split_at_nonatomic(&self, pos: u32) -> (r: (RawIobuf, RawIobuf))
        requires
            self@.wf(),
            pos <= self@.len(),
        ensures
            r.0@.wf(),
            r.1@.wf(),
            r.0@ == self@.resize(pos as int),
            r.1@ == self@.advance(pos as int),
            r.0@.is_extended_by(r.1@),
            r.0@.hi == r.1@.lo,
    {
        let mut a = self.clone_nonatomic();
        let mut b = self.clone_nonatomic();
        a.unsafe_resize(pos);
        b.unsafe_advance(pos);
        (a, b)
    }

    /// Keep `[lo + pos, hi)` in `self` and hand back a handle over
    /// `[lo, lo + pos)`, both under the full limits.
    pub fn split_start_at_nonatomic(&mut self, pos: u32) -> (r: Result<RawIobuf, ()>)
        requires
            old(self)@.wf(),
        ensures
            final(self)@.wf(),
            r.is_ok() <==> pos <= old(self)@.len(),
            r.is_ok() ==> {
                &&& r->Ok_0@.wf()
                &&& r->Ok_0@ == old(self)@.resize(pos as int)
                &&& final(self)@ == old(self)@.advance(pos as int)
                &&& r->Ok_0@.is_extended_by(final(self)@)
            },
            r.is_err() ==> final(self)@ == old(self)@,
    {
        match self.check_range_u32(pos, 0) {
            Ok(()) => Ok(self.unsafe_split_start_at_nonatomic(pos)),
            Err(()) => Err(()),
        }
    }

    /// [`RawIobuf::split_start_at_nonatomic`] with the bound as a
    /// precondition.
    pub fn unsafe_split_start_at_nonatomic(&mut self, pos: u32) -> (r: RawIobuf)
        requires
            old(self)@.wf(),
            pos <= old(self)@.len(),
        ensures
            final(self)@.wf(),
            r@.wf(),
            r@ == old(self)@.resize(pos as int),
            final(self)@ == old(self)@.advance(pos as int),
            r@.is_extended_by(final(self)@),
    {
        let mut ret = self.clone_nonatomic();
        ret.unsafe_resize(pos);
        self.unsafe_advance(pos);
        ret
    }

    /// As [`RawIobuf::split_at_nonatomic`], under the thread-safe
    /// reference-count discipline.
    pub fn split_at_atomic(&self, pos: u32) -> (r: Result<(RawIobuf, RawIobuf), ()>)
        requires
            self@.wf(),
        ensures
            r.is_ok() <==> pos <= self@.len(),
            r.is_ok() ==> {
                &&& r->Ok_0.0@.wf()
                &&& r->Ok_0.1@.wf()
                &&& r->Ok_0.0@ == self@.resize(pos as int)
                &&& r->Ok_0.1@ == self@.advance(pos as int)
                &&& r->Ok_0.0@.is_extended_by(r->Ok_0.1@)
                &&& r->Ok_0.0@.hi == r->Ok_0.1@.lo
            },
    {
        match self.check_range_u32(pos, 0) {
            Ok(()) => Ok(self.unsafe_split_at_atomic(pos)),
            Err(()) => Err(()),
        }
    }

    /// [`RawIobuf::split_at_atomic`] with the bound as a precondition.
    pub fn unsafe_split_at_atomic(&self, pos: u32) -> (r: (RawIobuf, RawIobuf))
        requires
            self@.wf(),
            pos <= self@.len(),
        ensures
            r.0@.wf(),
            r.1@.wf(),
            r.0@ == self@.resize(pos as int),
            r.1@ == self@.advance(pos as int),
            r.0@.is_extended_by(r.1@),
            r.0@.hi == r.1@.lo,
    {
        let mut a = self.clone_atomic();
        let mut b = self.clone_atomic();
        a.unsafe_resize(pos);
        b.unsafe_advance(pos);
        (a, b)
    }

    /// As [`RawIobuf::split_start_at_nonatomic`], under the thread-safe
    /// reference-count discipline.
    pub fn split_start_at_atomic(&mut self, pos: u32) -> (r: Result<RawIobuf, ()>)
        requires
            old(self)@.wf(),
        ensures
            final(self)@.wf(),
            r.is_ok() <==> pos <= old(self)@.len(),
            r.is_ok() ==> {
                &&& r->Ok_0@.wf()
                &&& r->Ok_0@ == old(self)@.resize(pos as int)
                &&& final(self)@ == old(self)@.advance(pos as int)
                &&& r->Ok_0@.is_extended_by(final(self)@)
            },
            r.is_err() ==> final(self)@ == old(self)@,
    {
        match self.check_range_u32(pos, 0) {
            Ok(()) => Ok(self.unsafe_split_start_at_atomic(pos)),
            Err(()) => Err(()),
        }
    }

    /// [`RawIobuf::split_start_at_atomic`] with the bound as a precondition.
    pub fn unsafe_split_start_at_atomic(&mut self, pos: u32) -> (r: RawIobuf)
        requires
            old(self)@.wf(),
            pos <= old(self)@.len(),
        ensures
            final(self)@.wf(),
            r@.wf(),
            r@ == old(self)@.resize(pos as int),
            final(self)@ == old(self)@.advance(pos as int),
            r@.is_extended_by(final(self)@),
    {
        let mut ret = self.clone_atomic();
        ret.unsafe_resize(pos);
        self.unsafe_advance(pos);
        ret
    }

    /// Copy the window's bytes down to the lower limit, set the window start
    /// just past the copy and the window end to the upper limit: the region
    /// ahead becomes maximal while the copied bytes sit behind the window.
    pub fn compact(&mut self)
        requires
            old(self)@.wf(),
        ensures
            final(self)@.wf(),
            final(self)@ == old(self)@.compact(),
    {
        let len = self.len();
        let lo_min = self.lo_min();
        let lo = self.lo;
        let mut i: u32 = 0;
        while i < len
            invariant
                old(self)@.wf(),
                0 <= i <= len,
                len == old(self)@.len(),
                lo_min == old(self)@.lo_min,
                lo == old(self)@.lo,
                self.lo_min_and_owned_bit == old(self).lo_min_and_owned_bit,
                self.lo == old(self).lo,
                self.hi == old(self).hi,
                self.hi_max == old(self).hi_max,
                self@.bytes.len() == old(self)@.bytes.len(),
                forall|j: int|
                    0 <= j < i ==> #[trigger] self@.bytes[lo_min + j] == old(self)@.bytes[lo + j],
                forall|k: int|
                    0 <= k < self@.bytes.len() && !(lo_min <= k < lo_min + i) ==> self@.bytes[k]
                        == old(self)@.bytes[k],
            decreases len - i,
        {
            let buf: &mut Vec<u8> = &mut self.buf;
            let b = buf[(lo + i) as usize];
            buf[(lo_min + i) as usize] = b;
            i = i + 1;
        }
        self.lo = lo_min + len;
        self.hi = self.hi_max;
        proof {
            let m = old(self)@;
            let sp = splice(m.bytes, m.lo_min, m.window());
            assert(m.window().len() == len);
            assert forall|k: int| 0 <= k < sp.len() implies sp[k] == self@.bytes[k] by {
                if k < m.lo_min {
                    assert(sp[k] == m.bytes.subrange(0, m.lo_min)[k]);
                    assert(sp[k] == m.bytes[k]);
                } else if k < m.lo_min + len {
                    assert(sp[k] == m.window()[k - m.lo_min]);
                    assert(m.window()[k - m.lo_min] == m.bytes[m.lo + (k - m.lo_min)]);
                    assert(self@.bytes[m.lo_min + (k - m.lo_min)] == m.bytes[m.lo + (k
                        - m.lo_min)]);
                } else {
                    assert(sp[k] == m.bytes.subrange(m.lo_min + len, m.bytes.len() as int)[k
                        - m.lo_min - len]);
                    assert(sp[k] == m.bytes[k]);
                }
            };
            assert(self@.bytes =~= sp);
            assert(self@ =~= old(self)@.compact());
        }
    }

    /// The byte at window offset `pos`, reinterpreted in `T`.
    pub fn get_at<T: Prim>(&self, pos: u32) -> (r: T)
        requires
            self@.wf(),
            pos + 1 <= self@.len(),
        ensures
            r == T::spec_of_bits(self@.window()[pos as int] as u64),
    {
        let b = (*self.buf)[(self.lo + pos) as usize];
        proof {
            assert(self@.window()[pos as int] == self@.bytes[self@.lo + pos]);
        }
        T::of_bits(b as u64)
    }

    /// Write the low byte of `val`'s pattern at window offset `pos`. The
    /// pattern must be a single byte.
    pub fn set_at<T: Prim>(&mut self, pos: u32, val: T)
        requires
            old(self)@.wf(),
            pos + 1 <= old(self)@.len(),
            val.spec_bits() < 0x100,
        ensures
            final(self)@.wf(),
            final(self)@ == old(self)@.poke_bytes(pos as int, seq![val.spec_bits() as u8]),
    {
        let b = val.bits();
        let idx = (self.lo + pos) as usize;
        let buf: &mut Vec<u8> = &mut self.buf;
        buf[idx] = b as u8;
        proof {
            let repl = seq![val.spec_bits() as u8];
            assert(self@.bytes =~= splice(old(self)@.bytes, old(self)@.lo + pos, repl));
            assert(self@ =~= old(self)@.poke_bytes(pos as int, repl));
        }
    }

    /// Copy the window bytes at `[pos, pos + dst.len())` into `dst`,
    /// keeping `dst`'s length.
    pub fn unsafe_peek(&self, pos: u32, dst: &mut Vec<u8>)
        requires
            self@.wf(),
            pos + old(dst)@.len() <= self@.len(),
        ensures
            final(dst)@ == self@.window().subrange(pos as int, pos + old(dst)@.len()),
    {
        let n = dst.len();
        let mut i: usize = 0;
        while i < n
            invariant
                self@.wf(),
                pos + n <= self@.len(),
                0 <= i <= n,
                dst@.len() == n,
                forall|j: int|
                    0 <= j < i ==> #[trigger] dst@[j] == self@.bytes[self@.lo + pos + j],
            decreases n - i,
        {
            let b = (*self.buf)[(self.lo + pos) as usize + i];
            dst[i] = b;
            i = i + 1;
        }
        proof {
            assert(dst@ =~= self@.window().subrange(pos as int, pos + n));
        }
    }

    /// Write the bytes of `src` at window offset `pos`.
    pub fn unsafe_poke(&mut self, pos: u32, src: &[u8])
        requires
            old(self)@.wf(),
            pos + src@.len() <= old(self)@.len(),
        ensures
            final(self)@.wf(),
            final(self)@ == old(self)@.poke_bytes(pos as int, src@),
    {
        let n = src.len();
        let lo = self.lo;
        let mut i: usize = 0;
        while i < n
            invariant
                old(self)@.wf(),
                pos + n <= old(self)@.len(),
                lo == old(self)@.lo,
                0 <= i <= n,
                n == src@.len(),
                self.lo_min_and_owned_bit == old(self).lo_min_and_owned_bit,
                self.lo == old(self).lo,
                self.hi == old(self).hi,
                self.hi_max == old(self).hi_max,
                self@.bytes.len() == old(self)@.bytes.len(),
                forall|j: int| 0 <= j < i ==> #[trigger] self@.bytes[lo + pos + j] == src@[j],
                forall|k: int|
                    0 <= k < self@.bytes.len() && !(lo + pos <= k < lo + pos + i)
                        ==> self@.bytes[k] == old(self)@.bytes[k],
            decreases n - i,
        {
            let b = src[i];
            let idx = (lo + pos) as usize + i;
            let buf: &mut Vec<u8> = &mut self.buf;
            buf[idx] = b;
            i = i + 1;
        }
        proof {
            lemma_splice_pointwise(old(self)@.bytes, self@.bytes, old(self)@.lo + pos, src@);
            assert(self@ =~= old(self)@.poke_bytes(pos as int, src@));
        }
    }

    /// Read a `T` big-endian from window offset `pos`: the byte at `pos` is
    /// the most significant.
    pub fn unsafe_peek_be<T: Prim>(&self, pos: u32) -> (r: T)
        requires
            self@.wf(),
            pos + T::spec_size() <= self@.len(),
        ensures
            r == T::spec_of_bits(
                be_val(self@.window().subrange(pos as int, pos + T::spec_size())) as u64,
            ),
    {
        proof {
            T::lemma_size();
            lemma_pow256_values();
            assert(self@.window().subrange(pos as int, pos as int) =~= Seq::<u8>::empty());
        }
        let n = T::size();
        let mut x: u64 = 0;
        let mut i: u32 = 0;
        while i < n
            invariant
                self@.wf(),
                n == T::spec_size(),
                n == 1 || n == 2 || n == 4 || n == 8,
                pos + n <= self@.len(),
                0 <= i <= n,
                x == be_val(self@.window().subrange(pos as int, pos + i)),
                x < pow256(i as nat),
            decreases n - i,
        {
            proof {
                lemma_pow256_values();
                lemma_pow256_increases((i + 1) as nat, 8);
            }
            let b = (*self.buf)[(self.lo + pos + i) as usize];
            proof {
                let w = self@.window();
                assert(w.subrange(pos as int, pos + i + 1) =~= w.subrange(
                    pos as int,
                    pos as int + i,
                ).push(w[pos + i]));
                assert(w[pos + i] == self@.bytes[self@.lo + pos + i]);
                lemma_be_val_push(w.subrange(pos as int, pos as int + i), w[pos + i]);
            }
            x = x * 256 + b as u64;
            i = i + 1;
        }
        T::of_bits(x)
    }

    /// Read a `T` little-endian from window offset `pos`: the byte at `pos`
    /// is the least significant.
    pub fn unsafe_peek_le<T: Prim>(&self, pos: u32) -> (r: T)
        requires
            self@.wf(),
            pos + T::spec_size() <= self@.len(),
        ensures
            r == T::spec_of_bits(
                le_val(self@.window().subrange(pos as int, pos + T::spec_size())) as u64,
            ),
    {
        proof {
            T::lemma_size();
            lemma_pow256_values();
        }
        let n = T::size();
        proof {
            assert(self@.window().subrange(pos + n, pos + n) =~= Seq::<u8>::empty());
        }
        let mut x: u64 = 0;
        let mut i: u32 = n;
        while i > 0
            invariant
                self@.wf(),
                n == T::spec_size(),
                n == 1 || n == 2 || n == 4 || n == 8,
                pos + n <= self@.len(),
                0 <= i <= n,
                x == le_val(self@.window().subrange(pos + i, pos + n)),
                x < pow256((n - i) as nat),
            decreases i,
        {
            proof {
                lemma_pow256_values();
                lemma_pow256_increases((n - i + 1) as nat, 8);
            }
            let b = (*self.buf)[(self.lo + pos + i - 1) as usize];
            proof {
                let w = self@.window();
                let t = w.subrange(pos + i - 1, pos + n);
                assert(t.skip(1) =~= w.subrange(pos + i, pos + n));
                assert(t[0] == w[pos + i - 1]);
                assert(w[pos + i - 1] == self@.bytes[self@.lo + pos + i - 1]);
                assert(le_val(t) == t[0] + 256 * le_val(t.skip(1)));
            }
            x = x * 256 + b as u64;
            i = i - 1;
        }
        T::of_bits(x)
    }

    /// Write `t` big-endian at window offset `pos`: the byte at `pos` is
    /// the most significant.
    pub fn unsafe_poke_be<T: Prim>(&mut self, pos: u32, t: T)
        requires
            old(self)@.wf(),
            pos + T::spec_size() <= old(self)@.len(),
        ensures
            final(self)@.wf(),
            final(self)@ == old(self)@.poke_bytes(
                pos as int,
                be_bytes(t.spec_bits() as int, T::spec_size()),
            ),
    {
        proof {
            T::lemma_size();
            t.lemma_bits_bound();
            lemma_pow256_values();
            lemma_be_bytes_len(t.spec_bits() as int, T::spec_size());
        }
        let ghost target = be_bytes(t.spec_bits() as int, T::spec_size());
        let n = T::size();
        let lo = self.lo;
        let mut v: u64 = t.bits();
        let mut i: u32 = n;
        while i > 0
            invariant
                old(self)@.wf(),
                n == T::spec_size(),
                n == 1 || n == 2 || n == 4 || n == 8,
                pos + n <= old(self)@.len(),
                lo == old(self)@.lo,
                0 <= i <= n,
                self.lo_min_and_owned_bit == old(self).lo_min_and_owned_bit,
                self.lo == old(self).lo,
                self.hi == old(self).hi,
                self.hi_max == old(self).hi_max,
                self@.bytes.len() == old(self)@.bytes.len(),
                target == be_bytes(t.spec_bits() as int, T::spec_size()),
                target.len() == n,
                v == (t.spec_bits() as int) / pow256((n - i) as nat),
                forall|j: int| i <= j < n ==> #[trigger] self@.bytes[lo + pos + j] == target[j],
                forall|k: int|
                    0 <= k < self@.bytes.len() && !(lo + pos + i <= k < lo + pos + n)
                        ==> self@.bytes[k] == old(self)@.bytes[k],
            decreases i,
        {
            proof {
                lemma_be_bytes_index(t.spec_bits() as int, T::spec_size(), i - 1);
                lemma_pow256_pos((n - i) as nat);
                vstd::arithmetic::div_mod::lemma_div_denominator(
                    t.spec_bits() as int,
                    pow256((n - i) as nat),
                    256,
                );
                assert(pow256((n - i + 1) as nat) == 256 * pow256((n - i) as nat));
            }
            let b = (v % 256) as u8;
            let idx = (lo + pos + i - 1) as usize;
            let buf: &mut Vec<u8> = &mut self.buf;
            buf[idx] = b;
            v = v / 256;
            i = i - 1;
        }
        proof {
            lemma_splice_pointwise(old(self)@.bytes, self@.bytes, old(self)@.lo + pos, target);
            assert(self@ =~= old(self)@.poke_bytes(pos as int, target));
        }
    }

    /// Write `t` little-endian at window offset `pos`: the byte at `pos` is
    /// the least significant.
    pub fn unsafe_poke_le<T: Prim>(&mut self, pos: u32, t: T)
        requires
            old(self)@.wf(),
            pos + T::spec_size() <= old(self)@.len(),
        ensures
            final(self)@.wf(),
            final(self)@ == old(self)@.poke_bytes(
                pos as int,
                le_bytes(t.spec_bits() as int, T::spec_size()),
            ),
    {
        proof {
            T::lemma_size();
            t.lemma_bits_bound();
            lemma_pow256_values();
            lemma_le_bytes_len(t.spec_bits() as int, T::spec_size());
        }
        let ghost target = le_bytes(t.spec_bits() as int, T::spec_size());
        let n = T::size();
        let lo = self.lo;
        let mut v: u64 = t.bits();
        let mut i: u32 = 0;
        while i < n
            invariant
                old(self)@.wf(),
                n == T::spec_size(),
                n == 1 || n == 2 || n == 4 || n == 8,
                pos + n <= old(self)@.len(),
                lo == old(self)@.lo,
                0 <= i <= n,
                self.lo_min_and_owned_bit == old(self).lo_min_and_owned_bit,
                self.lo == old(self).lo,
                self.hi == old(self).hi,
                self.hi_max == old(self).hi_max,
                self@.bytes.len() == old(self)@.bytes.len(),
                target == le_bytes(t.spec_bits() as int, T::spec_size()),
                target.len() == n,
                v == (t.spec_bits() as int) / pow256(i as nat),
                forall|j: int| 0 <= j < i ==> #[trigger] self@.bytes[lo + pos + j] == target[j],
                forall|k: int|
                    0 <= k < self@.bytes.len() && !(lo + pos <= k < lo + pos + i)
                        ==> self@.bytes[k] == old(self)@.bytes[k],
            decreases n - i,
        {
            proof {
                lemma_le_bytes_index(t.spec_bits() as int, T::spec_size(), i as int);
                lemma_pow256_pos(i as nat);
                vstd::arithmetic::div_mod::lemma_div_denominator(
                    t.spec_bits() as int,
                    pow256(i as nat),
                    256,
                );
                assert(pow256((i + 1) as nat) == 256 * pow256(i as nat));
            }
            let b = (v % 256) as u8;
            let idx = (lo + pos + i) as usize;
            let buf: &mut Vec<u8> = &mut self.buf;
            buf[idx] = b;
            v = v / 256;
            i = i + 1;
        }
        proof {
            lemma_splice_pointwise(old(self)@.bytes, self@.bytes, old(self)@.lo + pos, target);
            assert(self@ =~= old(self)@.poke_bytes(pos as int, target));
        }
    }

    /// Copy the window bytes at `[pos, pos + dst.len())` into `dst` when the
    /// range fits; otherwise `dst` is untouched.
    pub fn peek(&self, pos: u32, dst: &mut Vec<u8>) -> (r: Result<(), ()>)
        requires
            self@.wf(),
        ensures
            r.is_ok() <==> pos + old(dst)@.len() <= self@.len(),
            r.is_ok() ==> final(dst)@ == self@.window().subrange(
                pos as int,
                pos + old(dst)@.len(),
            ),
            r.is_err() ==> final(dst)@ == old(dst)@,
    {
        match self.check_range_uint(pos, dst.len()) {
            Ok(()) => {
                self.unsafe_peek(pos, dst);
                Ok(())
            },
            Err(()) => Err(()),
        }
    }

    /// Read a `T` big-endian from window offset `pos` when it fits.
    pub fn peek_be<T: Prim>(&self, pos: u32) -> (r: Result<T, ()>)
        requires
            self@.wf(),
        ensures
            r.is_ok() <==> pos + T::spec_size() <= self@.len(),
            r.is_ok() ==> r->Ok_0 == T::spec_of_bits(
                be_val(self@.window().subrange(pos as int, pos + T::spec_size())) as u64,
            ),
    {
        let n = T::size();
        match self.check_range_u32(pos, n) {
            Ok(()) => Ok(self.unsafe_peek_be::<T>(pos)),
            Err(()) => Err(()),
        }
    }

    /// Read a `T` little-endian from window offset `pos` when it fits.
    pub fn peek_le<T: Prim>(&self, pos: u32) -> (r: Result<T, ()>)
        requires
            self@.wf(),
        ensures
            r.is_ok() <==> pos + T::spec_size() <= self@.len(),
            r.is_ok() ==> r->Ok_0 == T::spec_of_bits(
                le_val(self@.window().subrange(pos as int, pos + T::spec_size())) as u64,
            ),
    {
        let n = T::size();
        match self.check_range_u32(pos, n) {
            Ok(()) => Ok(self.unsafe_peek_le::<T>(pos)),
            Err(()) => Err(()),
        }
    }

    /// Write the bytes of `src` at window offset `pos` when they fit;
    /// otherwise nothing changes.
    pub fn poke(&mut self, pos: u32, src: &[u8]) -> (r: Result<(), ()>)
        requires
            old(self)@.wf(),
        ensures
            final(self)@.wf(),
            r.is_ok() <==> pos + src@.len() <= old(self)@.len(),
            r.is_ok() ==> final(self)@ == old(self)@.poke_bytes(pos as int, src@),
            r.is_err() ==> final(self)@ == old(self)@,
    {
        match self.check_range_uint(pos, src.len()) {
            Ok(()) => {
                self.unsafe_poke(pos, src);
                Ok(())
            },
            Err(()) => Err(()),
        }
    }

    /// Write `t` big-endian at window offset `pos` when it fits; otherwise
    /// nothing changes.
    pub fn poke_be<T: Prim>(&mut self, pos: u32, t: T) -> (r: Result<(), ()>)
        requires
            old(self)@.wf(),
        ensures
            final(self)@.wf(),
            r.is_ok() <==> pos + T::spec_size() <= old(self)@.len(),
            r.is_ok() ==> final(self)@ == old(self)@.poke_bytes(
                pos as int,
                be_bytes(t.spec_bits() as int, T::spec_size()),
            ),
            r.is_err() ==> final(self)@ == old(self)@,
    {
        let n = T::size();
        match self.check_range_u32(pos, n) {
            Ok(()) => {
                self.unsafe_poke_be(pos, t);
                Ok(())
            },
            Err(()) => Err(()),
        }
    }

    /// Write `t` little-endian at window offset `pos` when it fits;
    /// otherwise nothing changes.
    pub fn poke_le<T: Prim>(&mut self, pos: u32, t: T) -> (r: Result<(), ()>)
        requires
            old(self)@.wf(),
        ensures
            final(self)@.wf(),
            r.is_ok() <==> pos + T::spec_size() <= old(self)@.len(),
            r.is_ok() ==> final(self)@ == old(self)@.poke_bytes(
                pos as int,
                le_bytes(t.spec_bits() as int, T::spec_size()),
            ),
            r.is_err() ==> final(self)@ == old(self)@,
    {
        let n = T::size();
        match self.check_range_u32(pos, n) {
            Ok(()) => {
                self.unsafe_poke_le(pos, t);
                Ok(())
            },
            Err(()) => Err(()),
        }
    }

    /// Write the bytes of `src` at the window start and move the start past
    /// them.
    pub fn unsafe_fill(&mut self, src: &[u8])
        requires
            old(self)@.wf(),
            src@.len() <= old(self)@.len(),
        ensures
            final(self)@.wf(),
            final(self)@ == old(self)@.poke_bytes(0, src@).advance(src@.len() as int),
    {
        self.unsafe_poke(0, src);
        let n = src.len() as u32;
        self.unsafe_advance(n);
    }

    /// [`RawIobuf::unsafe_fill`] when `src` fits; otherwise nothing changes.
    pub fn fill(&mut self, src: &[u8]) -> (r: Result<(), ()>)
        requires
            old(self)@.wf(),
        ensures
            final(self)@.wf(),
            r.is_ok() <==> src@.len() <= old(self)@.len(),
            r.is_ok() ==> final(self)@ == old(self)@.poke_bytes(0, src@).advance(
                src@.len() as int,
            ),
            r.is_err() ==> final(self)@ == old(self)@,
    {
        match self.check_range_uint(0, src.len()) {
            Ok(()) => {
                self.unsafe_fill(src);
                Ok(())
            },
            Err(()) => Err(()),
        }
    }

    /// Write `t` big-endian at the window start and move the start past it.
    pub fn unsafe_fill_be<T: Prim>(&mut self, t: T)
        requires
            old(self)@.wf(),
            T::spec_size() <= old(self)@.len(),
        ensures
            final(self)@.wf(),
            final(self)@ == old(self)@.poke_bytes(
                0,
                be_bytes(t.spec_bits() as int, T::spec_size()),
            ).advance(T::spec_size() as int),
    {
        let n = T::size();
        self.unsafe_poke_be(0, t);
        self.unsafe_advance(n);
    }

    /// Write `t` little-endian at the window start and move the start past
    /// it.
    pub fn unsafe_fill_le<T: Prim>(&mut self, t: T)
        requires
            old(self)@.wf(),
            T::spec_size() <= old(self)@.len(),
        ensures
            final(self)@.wf(),
            final(self)@ == old(self)@.poke_bytes(
                0,
                le_bytes(t.spec_bits() as int, T::spec_size()),
            ).advance(T::spec_size() as int),
    {
        let n = T::size();
        self.unsafe_poke_le(0, t);
        self.unsafe_advance(n);
    }

    /// [`RawIobuf::unsafe_fill_be`] when `t` fits; otherwise nothing changes.
    pub fn fill_be<T: Prim>(&mut self, t: T) -> (r: Result<(), ()>)
        requires
            old(self)@.wf(),
        ensures
            final(self)@.wf(),
            r.is_ok() <==> T::spec_size() <= old(self)@.len(),
            r.is_ok() ==> final(self)@ == old(self)@.poke_bytes(
                0,
                be_bytes(t.spec_bits() as int, T::spec_size()),
            ).advance(T::spec_size() as int),
            r.is_err() ==> final(self)@ == old(self)@,
    {
        let n = T::size();
        match self.check_range_u32(0, n) {
            Ok(()) => {
                self.unsafe_fill_be(t);
                Ok(())
            },
            Err(()) => Err(()),
        }
    }

    /// [`RawIobuf::unsafe_fill_le`] when `t` fits; otherwise nothing changes.
    pub fn fill_le<T: Prim>(&mut self, t: T) -> (r: Result<(), ()>)
        requires
            old(self)@.wf(),
        ensures
            final(self)@.wf(),
            r.is_ok() <==> T::spec_size() <= old(self)@.len(),
            r.is_ok() ==> final(self)@ == old(self)@.poke_bytes(
                0,
                le_bytes(t.spec_bits() as int, T::spec_size()),
            ).advance(T::spec_size() as int),
            r.is_err() ==> final(self)@ == old(self)@,
    {
        let n = T::size();
        match self.check_range_u32(0, n) {
            Ok(()) => {
                self.unsafe_fill_le(t);
                Ok(())
            },
            Err(()) => Err(()),
        }
    }

    /// Copy the first `dst.len()` window bytes into `dst` and move the
    /// window start past them.
    pub fn unsafe_consume(&mut self, dst: &mut Vec<u8>)
        requires
            old(self)@.wf(),
            old(dst)@.len() <= old(self)@.len(),
        ensures
            final(self)@.wf(),
            final(dst)@ == old(self)@.window().subrange(0, old(dst)@.len() as int),
            final(self)@ == old(self)@.advance(old(dst)@.len() as int),
    {
        self.unsafe_peek(0, dst);
        let n = dst.len() as u32;
        self.unsafe_advance(n);
    }

    /// [`RawIobuf::unsafe_consume`] when `dst` fits in the window; otherwise
    /// nothing changes.
    pub fn consume(&mut self, dst: &mut Vec<u8>) -> (r: Result<(), ()>)
        requires
            old(self)@.wf(),
        ensures
            final(self)@.wf(),
            r.is_ok() <==> old(dst)@.len() <= old(self)@.len(),
            r.is_ok() ==> {
                &&& final(dst)@ == old(self)@.window().subrange(0, old(dst)@.len() as int)
                &&& final(self)@ == old(self)@.advance(old(dst)@.len() as int)
            },
            r.is_err() ==> final(self)@ == old(self)@ && final(dst)@ == old(dst)@,
    {
        match self.check_range_uint(0, dst.len()) {
            Ok(()) => {
                self.unsafe_consume(dst);
                Ok(())
            },
            Err(()) => Err(()),
        }
    }

    /// Read a `T` big-endian from the window start and move the start past
    /// it.
    pub fn unsafe_consume_be<T: Prim>(&mut self) -> (r: T)
        requires
            old(self)@.wf(),
            T::spec_size() <= old(self)@.len(),
        ensures
            final(self)@.wf(),
            r == T::spec_of_bits(
                be_val(old(self)@.window().subrange(0, T::spec_size() as int)) as u64,
            ),
            final(self)@ == old(self)@.advance(T::spec_size() as int),
    {
        let n = T::size();
        let ret = self.unsafe_peek_be::<T>(0);
        self.unsafe_advance(n);
        ret
    }

    /// Read a `T` little-endian from the window start and move the start
    /// past it.
    pub fn unsafe_consume_le<T: Prim>(&mut self) -> (r: T)
        requires
            old(self)@.wf(),
            T::spec_size() <= old(self)@.len(),
        ensures
            final(self)@.wf(),
            r == T::spec_of_bits(
                le_val(old(self)@.window().subrange(0, T::spec_size() as int)) as u64,
            ),
            final(self)@ == old(self)@.advance(T::spec_size() as int),
    {
        let n = T::size();
        let ret = self.unsafe_peek_le::<T>(0);
        self.unsafe_advance(n);
        ret
    }

    /// [`RawIobuf::unsafe_consume_be`] when a `T` fits; otherwise nothing
    /// changes.
    pub fn consume_be<T: Prim>(&mut self) -> (r: Result<T, ()>)
        requires
            old(self)@.wf(),
        ensures
            final(self)@.wf(),
            r.is_ok() <==> T::spec_size() <= old(self)@.len(),
            r.is_ok() ==> {
                &&& r->Ok_0 == T::spec_of_bits(
                    be_val(old(self)@.window().subrange(0, T::spec_size() as int)) as u64,
                )
                &&& final(self)@ == old(self)@.advance(T::spec_size() as int)
            },
            r.is_err() ==> final(self)@ == old(self)@,
    {
        let n = T::size();
        match self.check_range_u32(0, n) {
            Ok(()) => Ok(self.unsafe_consume_be::<T>()),
            Err(()) => Err(()),
        }
    }

    /// [`RawIobuf::unsafe_consume_le`] when a `T` fits; otherwise nothing
    /// changes.
    pub fn consume_le<T: Prim>(&mut self) -> (r: Result<T, ()>)
        requires
            old(self)@.wf(),
        ensures
            final(self)@.wf(),
            r.is_ok() <==> T::spec_size() <= old(self)@.len(),
            r.is_ok() ==> {
                &&& r->Ok_0 == T::spec_of_bits(
                    le_val(old(self)@.window().subrange(0, T::spec_size() as int)) as u64,
                )
                &&& final(self)@ == old(self)@.advance(T::spec_size() as int)
            },
            r.is_err() ==> final(self)@ == old(self)@,
    {
        let n = T::size();
        match self.check_range_u32(0, n) {
            Ok(()) => Ok(self.unsafe_consume_le::<T>()),
            Err(()) => Err(()),
        }
    }
}

/// Poking bytes at the window start leaves exactly those bytes at the head
/// of the window.
proof fn lemma_poke_window_prefix(m: IobufModel, repl: Seq<u8>)
    requires
        m.wf(),
        repl.len() <= m.len(),
    ensures
        m.poke_bytes(0, repl).window().subrange(0, repl.len() as int) == repl,
{
    let w = m.poke_bytes(0, repl);
    let n = repl.len() as int;
    assert forall|j: int| 0 <= j < n implies w.window().subrange(0, n)[j] == repl[j] by {
        assert(w.window().subrange(0, n)[j] == w.bytes[m.lo + j]);
        assert(splice(m.bytes, m.lo, repl)[m.lo + j] == repl[j]);
    };
    assert(w.window().subrange(0, n) =~= repl);
}

/// Writing any value big-endian at the window start and reading it back
/// big-endian yields the value, on every handle whose window has room for
/// it: `peek_be(0)` after `poke_be(0, x)` returns `x`.
pub proof fn lemma_poke_then_peek_be<T: Prim>(m: IobufModel, x: T)
    requires
        m.wf(),
        T::spec_size() <= m.len(),
    ensures
        ({
            let w = m.poke_bytes(0, be_bytes(x.spec_bits() as int, T::spec_size()));
            T::spec_of_bits(be_val(w.window().subrange(0, T::spec_size() as int)) as u64) == x
        }),
{
    let repl = be_bytes(x.spec_bits() as int, T::spec_size());
    lemma_be_bytes_len(x.spec_bits() as int, T::spec_size());
    lemma_poke_window_prefix(m, repl);
    crate::prim::lemma_be_roundtrip::<T>(x);
}

/// Writing any value little-endian at the window start and reading it back
/// little-endian yields the value, as [`lemma_poke_then_peek_be`].
pub proof fn lemma_poke_then_peek_le<T: Prim>(m: IobufModel, x: T)
    requires
        m.wf(),
        T::spec_size() <= m.len(),
    ensures
        ({
            let w = m.poke_bytes(0, le_bytes(x.spec_bits() as int, T::spec_size()));
            T::spec_of_bits(le_val(w.window().subrange(0, T::spec_size() as int)) as u64) == x
        }),
{
    let repl = le_bytes(x.spec_bits() as int, T::spec_size());
    lemma_le_bytes_len(x.spec_bits() as int, T::spec_size());
    lemma_poke_window_prefix(m, repl);
    crate::prim::lemma_le_roundtrip::<T>(x);
}

/// The window bytes laid down by a big-endian write are the reverse of those
/// laid down by the little-endian write of the same value.
pub proof fn lemma_poke_be_mirrors_poke_le<T: Prim>(m: IobufModel, x: T)
    requires
        m.wf(),
        T::spec_size() <= m.len(),
    ensures
        ({
            let wb = m.poke_bytes(0, be_bytes(x.spec_bits() as int, T::spec_size()));
            let wl = m.poke_bytes(0, le_bytes(x.spec_bits() as int, T::spec_size()));
            wb.window().subrange(0, T::spec_size() as int) == wl.window().subrange(
                0,
                T::spec_size() as int,
            ).reverse()
        }),
{
    let v = x.spec_bits() as int;
    let n = T::spec_size();
    lemma_be_bytes_len(v, n);
    lemma_le_bytes_len(v, n);
    lemma_poke_window_prefix(m, be_bytes(v, n));
    lemma_poke_window_prefix(m, le_bytes(v, n));
    crate::prim::lemma_be_bytes_reverse_of_le_bytes::<T>(x);
}

/// Compacting preserves the window contents: after `compact`, rewinding and
/// resizing back to the old window length shows exactly the bytes the window
/// held before.
pub proof fn lemma_compact_preserves_window(m: IobufModel)
    requires
        m.wf(),
    ensures
        m.compact().rewind().resize(m.len()).window() == m.window(),
{
    let c = m.compact().rewind().resize(m.len());
    assert forall|j: int| 0 <= j < m.len() implies c.bytes[m.lo_min + j] == m.window()[j] by {
        let sp = splice(m.bytes, m.lo_min, m.window());
        assert(sp[m.lo_min + j] == m.window()[j]);
    };
    assert(c.window() =~= m.window());
}

/// `narrow` is idempotent: narrowing twice is the same as narrowing once.
pub proof fn lemma_narrow_idempotent(m: IobufModel)
    ensures
        m.narrow().narrow() == m.narrow(),
{
    assert(m.narrow().narrow() =~= m.narrow());
}

/// `reset` followed by `flip_lo` leaves an empty window sitting at the lower
/// limit.
pub proof fn lemma_reset_flip_lo_empty(m: IobufModel)
    ensures
        m.reset().flip_lo().len() == 0,
        m.reset().flip_lo().lo == m.lo_min,
        m.reset().flip_lo().hi == m.lo_min,
{
}

} // verus!
