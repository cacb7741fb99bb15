//! The mathematical model of fixed-width integer serialization.
//!
//! A value `v` occupying `n` bytes is laid out either big-endian (most
//! significant byte first, [`be_bytes`]) or little-endian (least significant
//! byte first, [`le_bytes`]); [`be_val`] and [`le_val`] read a byte sequence
//! back. The lemmas prove the round trips and that the two byte orders are
//! reverses of one another.

use vstd::prelude::*;

verus! {

/// `256 ^ n`: the number of values an `n`-byte field can hold.
pub open spec fn pow256(n: nat) -> int
    decreases n,
{
    if n == 0 {
        1
    } else {
        256 * pow256((n - 1) as nat)
    }
}

/// The big-endian encoding of `v` in `n` bytes: most significant byte first.
pub open spec fn be_bytes(v: int, n: nat) -> Seq<u8>
    decreases n,
{
    if n == 0 {
        Seq::empty()
    } else {
        be_bytes(v / 256, (n - 1) as nat).push((v % 256) as u8)
    }
}

/// The little-endian encoding of `v` in `n` bytes: least significant byte first.
pub open spec fn le_bytes(v: int, n: nat) -> Seq<u8>
    decreases n,
{
    if n == 0 {
        Seq::empty()
    } else {
        seq![(v % 256) as u8] + le_bytes(v / 256, (n - 1) as nat)
    }
}

/// The value of a byte sequence read big-endian.
pub open spec fn be_val(s: Seq<u8>) -> int
    decreases s.len(),
{
    if s.len() == 0 {
        0
    } else {
        be_val(s.drop_last()) * 256 + s.last()
    }
}

/// The value of a byte sequence read little-endian.
pub open spec fn le_val(s: Seq<u8>) -> int
    decreases s.len(),
{
    if s.len() == 0 {
        0
    } else {
        s[0] + 256 * le_val(s.skip(1))
    }
}

pub proof fn lemma_pow256_pos(n: nat)
    ensures
        pow256(n) >= 1,
    decreases n,
{
    if n > 0 {
        lemma_pow256_pos((n - 1) as nat);
    }
}

pub proof fn lemma_be_bytes_len(v: int, n: nat)
    ensures
        be_bytes(v, n).len() == n,
    decreases n,
{
    if n > 0 {
        lemma_be_bytes_len(v / 256, (n - 1) as nat);
    }
}

pub proof fn lemma_le_bytes_len(v: int, n: nat)
    ensures
        le_bytes(v, n).len() == n,
    decreases n,
{
    if n > 0 {
        lemma_le_bytes_len(v / 256, (n - 1) as nat);
    }
}

/// Reading back a big-endian encoding recovers the value.
pub proof fn lemma_be_val_be_bytes(v: int, n: nat)
    requires
        0 <= v < pow256(n),
    ensures
        be_val(be_bytes(v, n)) == v,
    decreases n,
{
    if n > 0 {
        lemma_pow256_pos((n - 1) as nat);
        lemma_be_val_be_bytes(v / 256, (n - 1) as nat);
        lemma_be_bytes_len(v / 256, (n - 1) as nat);
        let s = be_bytes(v, n);
        assert(s.drop_last() =~= be_bytes(v / 256, (n - 1) as nat));
        assert(s.last() == (v % 256) as u8);
    }
}

/// Reading back a little-endian encoding recovers the value.
pub proof fn lemma_le_val_le_bytes(v: int, n: nat)
    requires
        0 <= v < pow256(n),
    ensures
        le_val(le_bytes(v, n)) == v,
    decreases n,
{
    if n > 0 {
        lemma_pow256_pos((n - 1) as nat);
        lemma_le_val_le_bytes(v / 256, (n - 1) as nat);
        lemma_le_bytes_len(v / 256, (n - 1) as nat);
        let s = le_bytes(v, n);
        assert(s.skip(1) =~= le_bytes(v / 256, (n - 1) as nat));
        assert(s[0] == (v % 256) as u8);
    }
}

/// The two byte orders are mirror images: the little-endian encoding of a
/// value is the reverse of its big-endian encoding.
pub proof fn lemma_le_bytes_is_reverse_of_be_bytes(v: int, n: nat)
    ensures
        le_bytes(v, n) == be_bytes(v, n).reverse(),
    decreases n,
{
    if n == 0 {
        assert(le_bytes(v, n) =~= be_bytes(v, n).reverse());
    } else {
        lemma_le_bytes_is_reverse_of_be_bytes(v / 256, (n - 1) as nat);
        lemma_be_bytes_len(v / 256, (n - 1) as nat);
        lemma_le_bytes_len(v / 256, (n - 1) as nat);
        assert(le_bytes(v, n) =~= be_bytes(v, n).reverse());
    }
}

/// Appending a byte to a big-endian prefix shifts the value up by one byte.
pub proof fn lemma_be_val_push(s: Seq<u8>, b: u8)
    ensures
        be_val(s.push(b)) == be_val(s) * 256 + b,
{
    assert(s.push(b).drop_last() =~= s);
    assert(s.push(b).last() == b);
}

/// `pow256` is monotone in the byte count.
pub proof fn lemma_pow256_increases(a: nat, b: nat)
    requires
        a <= b,
    ensures
        pow256(a) <= pow256(b),
    decreases b,
{
    if a < b {
        lemma_pow256_increases(a, (b - 1) as nat);
        lemma_pow256_pos((b - 1) as nat);
    }
}

/// `pow256` at each width up to eight bytes, unfolded step by step.
pub proof fn lemma_pow256_values()
    ensures
        pow256(0) == 1,
        pow256(1) == 0x100,
        pow256(2) == 0x1_0000,
        pow256(3) == 0x100_0000,
        pow256(4) == 0x1_0000_0000,
        pow256(5) == 0x100_0000_0000,
        pow256(6) == 0x1_0000_0000_0000,
        pow256(7) == 0x100_0000_0000_0000,
        pow256(8) == 0x1_0000_0000_0000_0000,
{
    assert(pow256(0) == 1);
    assert(pow256(1) == 256 * pow256(0));
    assert(pow256(2) == 256 * pow256(1));
    assert(pow256(3) == 256 * pow256(2));
    assert(pow256(4) == 256 * pow256(3));
    assert(pow256(5) == 256 * pow256(4));
    assert(pow256(6) == 256 * pow256(5));
    assert(pow256(7) == 256 * pow256(6));
    assert(pow256(8) == 256 * pow256(7));
}

/// Byte `j` of a big-endian encoding carries the value's `n - 1 - j`th
/// 256-power digit.
pub proof fn lemma_be_bytes_index(v: int, n: nat, j: int)
    requires
        0 <= v,
        0 <= j < n,
    ensures
        be_bytes(v, n)[j] == ((v / pow256((n - 1 - j) as nat)) % 256) as u8,
    decreases n,
{
    lemma_be_bytes_len(v / 256, (n - 1) as nat);
    if j == n - 1 {
        assert(pow256(0) == 1);
        assert(be_bytes(v, n)[j] == (v % 256) as u8);
    } else {
        lemma_be_bytes_index(v / 256, (n - 1) as nat, j);
        assert(be_bytes(v, n)[j] == be_bytes(v / 256, (n - 1) as nat)[j]);
        let k = (n - 2 - j) as nat;
        lemma_pow256_pos(k);
        vstd::arithmetic::div_mod::lemma_div_denominator(v, 256, pow256(k));
        assert(256 * pow256(k) == pow256((n - 1 - j) as nat));
    }
}

/// Byte `j` of a little-endian encoding carries the value's `j`th 256-power
/// digit.
pub proof fn lemma_le_bytes_index(v: int, n: nat, j: int)
    requires
        0 <= v,
        0 <= j < n,
    ensures
        le_bytes(v, n)[j] == ((v / pow256(j as nat)) % 256) as u8,
    decreases n,
{
    lemma_le_bytes_len(v / 256, (n - 1) as nat);
    if j == 0 {
        assert(pow256(0) == 1);
        assert(le_bytes(v, n)[0] == (v % 256) as u8);
    } else {
        lemma_le_bytes_index(v / 256, (n - 1) as nat, j - 1);
        assert(le_bytes(v, n)[j] == le_bytes(v / 256, (n - 1) as nat)[j - 1]);
        let k = (j - 1) as nat;
        lemma_pow256_pos(k);
        vstd::arithmetic::div_mod::lemma_div_denominator(v, 256, pow256(k));
        assert(256 * pow256(k) == pow256(j as nat));
    }
}

} // verus!
