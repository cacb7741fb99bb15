//! Rendering a buffer as a hex and ASCII dump.
//!
//! [`RawIobuf::show`] produces the dump as bytes of ASCII text: a header
//! naming the cursors, then one line per eight window bytes. Each line holds
//! the zero-padded hex offset of the line within the window, the first up to
//! four bytes as hex then ASCII, and the remaining bytes as ASCII then hex,
//! mirrored. Bytes outside the printable range render as `.`. The spec
//! functions here define that text exactly, and the methods are proved to
//! produce it.

use vstd::prelude::*;
use crate::raw::{IobufModel, RawIobuf};
use vstd::string::StringSliceAdditionalSpecFns;

verus! {

/// The ASCII hex digit for `n`, lower case.
pub open spec fn hex_digit(n: int) -> u8 {
    if n < 10 {
        (0x30 + n) as u8
    } else {
        (0x57 + n) as u8
    }
}

/// Two hex digits and a trailing space: how one byte renders in the hex
/// half of a line.
pub open spec fn hex_byte(b: u8) -> Seq<u8> {
    seq![hex_digit(b as int / 16), hex_digit(b as int % 16), 0x20u8]
}

/// The hex rendering of a byte sequence.
pub open spec fn hex_render(s: Seq<u8>) -> Seq<u8>
    decreases s.len(),
{
    if s.len() == 0 {
        Seq::empty()
    } else {
        hex_byte(s[0]) + hex_render(s.skip(1))
    }
}

/// A byte as it renders in the ASCII half of a line: itself when printable,
/// a dot otherwise.
pub open spec fn ascii_char(b: u8) -> u8 {
    if 32 <= b && b < 126 {
        b
    } else {
        0x2eu8
    }
}

/// The ASCII rendering of a byte sequence.
pub open spec fn ascii_render(s: Seq<u8>) -> Seq<u8> {
    Seq::new(s.len(), |i: int| ascii_char(s[i]))
}

/// `v` as exactly `digits` hex digits, most significant first.
pub open spec fn hex_pad(v: int, digits: nat) -> Seq<u8>
    decreases digits,
{
    if digits == 0 {
        Seq::empty()
    } else {
        hex_pad(v / 16, (digits - 1) as nat).push(hex_digit(v % 16))
    }
}

/// `v` in decimal, most significant digit first.
pub open spec fn dec_rep(v: int) -> Seq<u8>
    decreases v,
{
    if v < 10 {
        seq![(0x30 + v) as u8]
    } else {
        dec_rep(v / 10).push((0x30 + v % 10) as u8)
    }
}

/// How many hex digits a line offset takes, chosen from the window length:
/// two for up to 256 bytes, then four, six and eight.
pub open spec fn addr_digits(window_len: int) -> nat {
    if window_len <= 0x100 {
        2
    } else if window_len <= 0x1_0000 {
        4
    } else if window_len <= 0x100_0000 {
        6
    } else {
        8
    }
}

/// One dump line: the offset, the first up to four bytes as hex then ASCII,
/// and the rest as ASCII then hex, mirrored.
pub open spec fn line_render(window_len: int, line_number: int, chunk: Seq<u8>) -> Seq<u8> {
    let addr = seq![0x30u8, 0x78u8] + hex_pad(line_number * 8, addr_digits(window_len)) + seq![
        0x3au8,
        0x20u8,
        0x20u8,
    ];
    if chunk.len() >= 4 {
        let left = chunk.subrange(0, 4);
        let right = chunk.subrange(4, chunk.len() as int);
        addr + hex_render(left) + seq![0x20u8, 0x20u8] + ascii_render(left) + seq![0x20u8, 0x20u8]
            + ascii_render(right) + seq![0x20u8, 0x20u8] + hex_render(right) + seq![0x0au8]
    } else {
        addr + hex_render(chunk) + seq![0x20u8, 0x20u8] + ascii_render(chunk) + seq![0x20u8, 0x20u8] + seq![
            0x0au8,
        ]
    }
}

/// The dump lines for window bytes `w`, eight bytes to a line, numbering
/// lines from `line`.
pub open spec fn dump_render(window_len: int, w: Seq<u8>, line: int) -> Seq<u8>
    decreases w.len(),
{
    if w.len() == 0 {
        Seq::empty()
    } else if w.len() <= 8 {
        line_render(window_len, line, w)
    } else {
        line_render(window_len, line, w.subrange(0, 8)) + dump_render(
            window_len,
            w.skip(8),
            line + 1,
        )
    }
}

/// The header line naming the tag, limits and window.
pub open spec fn header_render(tag: Seq<u8>, m: IobufModel) -> Seq<u8> {
    tag + seq![
        0x20u8,
        0x49u8,
        0x4fu8,
        0x62u8,
        0x75u8,
        0x66u8,
        0x2cu8,
        0x20u8,
        0x6cu8,
        0x69u8,
        0x6du8,
        0x69u8,
        0x74u8,
        0x73u8,
        0x3du8,
        0x5bu8,
    ] + dec_rep(m.lo_min) + seq![0x2cu8] + dec_rep(m.hi_max) + seq![
        0x29u8,
        0x2cu8,
        0x20u8,
        0x62u8,
        0x6fu8,
        0x75u8,
        0x6eu8,
        0x64u8,
        0x73u8,
        0x3du8,
        0x5bu8,
    ] + dec_rep(m.lo) + seq![0x2cu8] + dec_rep(m.hi) + seq![0x29u8, 0x0au8]
}

/// The marker shown in place of the dump when the window is empty.
pub open spec fn empty_marker() -> Seq<u8> {
    seq![0x3cu8, 0x65u8, 0x6du8, 0x70u8, 0x74u8, 0x79u8, 0x20u8, 0x62u8, 0x75u8, 0x66u8, 0x66u8, 0x65u8, 0x72u8, 0x3eu8]
}

/// The whole dump: the header, then the lines, or the empty marker.
pub open spec fn show_render(tag: Seq<u8>, m: IobufModel) -> Seq<u8> {
    if m.len() == 0 {
        header_render(tag, m) + empty_marker()
    } else {
        header_render(tag, m) + dump_render(m.len(), m.window(), 0)
    }
}

/// Appending a byte to the input extends its hex rendering by that byte's
/// rendering.
proof fn lemma_hex_render_snoc(s: Seq<u8>, b: u8)
    ensures
        hex_render(s.push(b)) == hex_render(s) + hex_byte(b),
    decreases s.len(),
{
    if s.len() == 0 {
        assert(s.push(b).skip(1) =~= Seq::<u8>::empty());
        assert(s.push(b)[0] == b);
        assert(hex_render(Seq::<u8>::empty()) =~= Seq::<u8>::empty());
        assert(hex_render(s.push(b)) =~= hex_byte(b) + hex_render(Seq::<u8>::empty()));
        assert(hex_render(s.push(b)) =~= hex_byte(b));
        assert(hex_render(s) + hex_byte(b) =~= hex_byte(b));
    } else {
        lemma_hex_render_snoc(s.skip(1), b);
        assert(s.push(b).skip(1) =~= s.skip(1).push(b));
        assert(s.push(b)[0] == s[0]);
        assert(hex_render(s.push(b)) =~= hex_render(s) + hex_byte(b));
    }
}

/// The ASCII hex digit for `n`, lower case.
fn hex_digit_exec(n: u8) -> (r: u8)
    requires
        n < 16,
    ensures
        r == hex_digit(n as int),
{
    if n < 10 {
        0x30 + n
    } else {
        0x57 + n
    }
}

/// Append `v` as exactly `digits` hex digits.
fn push_hex_pad(out: &mut Vec<u8>, v: u32, digits: u32)
    ensures
        final(out)@ == old(out)@ + hex_pad(v as int, digits as nat),
    decreases digits,
{
    if digits == 0 {
        proof {
            assert(out@ =~= out@ + hex_pad(v as int, 0));
        }
    } else {
        push_hex_pad(out, v / 16, digits - 1);
        let d = hex_digit_exec((v % 16) as u8);
        out.push(d);
        proof {
            assert(out@ =~= old(out)@ + hex_pad(v as int, digits as nat));
        }
    }
}

/// Append `v` in decimal.
fn push_dec(out: &mut Vec<u8>, v: u32)
    ensures
        final(out)@ == old(out)@ + dec_rep(v as int),
    decreases v,
{
    if v < 10 {
        out.push(0x30 + v as u8);
        proof {
            assert(out@ =~= old(out)@ + dec_rep(v as int));
        }
    } else {
        push_dec(out, v / 10);
        out.push(0x30 + (v % 10) as u8);
        proof {
            assert(out@ =~= old(out)@ + dec_rep(v as int));
        }
    }
}

impl RawIobuf {
    /// Append the hex rendering of `half_line`: two digits and a space for
    /// each byte.
    pub fn show_hex(&self, half_line: &[u8], out: &mut Vec<u8>)
        ensures
            final(out)@ == old(out)@ + hex_render(half_line@),
    {
        let n = half_line.len();
        let mut i: usize = 0;
        proof {
            assert(half_line@.subrange(0, 0) =~= Seq::<u8>::empty());
            assert(out@ =~= out@ + hex_render(half_line@.subrange(0, 0)));
        }
        while i < n
            invariant
                n == half_line@.len(),
                0 <= i <= n,
                out@ == old(out)@ + hex_render(half_line@.subrange(0, i as int)),
            decreases n - i,
        {
            let x = half_line[i];
            let d1 = hex_digit_exec(x / 16);
            let d2 = hex_digit_exec(x % 16);
            out.push(d1);
            out.push(d2);
            out.push(0x20u8);
            proof {
                let pre = half_line@.subrange(0, i as int);
                lemma_hex_render_snoc(pre, x);
                assert(half_line@.subrange(0, i + 1) =~= pre.push(x));
                assert(out@ =~= old(out)@ + hex_render(half_line@.subrange(0, i + 1)));
            }
            i = i + 1;
        }
        proof {
            assert(half_line@.subrange(0, n as int) =~= half_line@);
        }
    }

    /// Append the ASCII rendering of `half_line`: printable bytes as they
    /// are, anything else as a dot.
    pub fn show_ascii(&self, half_line: &[u8], out: &mut Vec<u8>)
        ensures
            final(out)@ == old(out)@ + ascii_render(half_line@),
    {
        let n = half_line.len();
        let mut i: usize = 0;
        while i < n
            invariant
                n == half_line@.len(),
                0 <= i <= n,
                out@.len() == old(out)@.len() + i,
                forall|j: int| 0 <= j < old(out)@.len() ==> out@[j] == old(out)@[j],
                forall|j: int|
                    0 <= j < i ==> #[trigger] out@[old(out)@.len() + j] == ascii_char(
                        half_line@[j],
                    ),
            decreases n - i,
        {
            let x = half_line[i];
            let c = if x >= 32 && x < 126 {
                x
            } else {
                0x2eu8
            };
            out.push(c);
            i = i + 1;
        }
        proof {
            let m = old(out)@.len() as int;
            assert forall|k: int| 0 <= k < out@.len() implies out@[k] == (old(out)@
                + ascii_render(half_line@))[k] by {
                if k >= m {
                    assert(out@[m + (k - m)] == ascii_char(half_line@[k - m]));
                }
            };
            assert(out@ =~= old(out)@ + ascii_render(half_line@));
        }
    }

    /// Append one dump line for `chunk`, the window bytes at
    /// `[line_number * 8, line_number * 8 + chunk.len())`.
    #[verifier::rlimit(100)]
    pub fn show_line(&self, line_number: u32, chunk: &[u8], out: &mut Vec<u8>)
        requires
            self@.wf(),
            line_number * 8 < self@.len(),
        ensures
            final(out)@ == old(out)@ + line_render(self@.len(), line_number as int, chunk@),
    {
        let len = self.len();
        proof {
            assert((1u32 << 8) == 0x100) by (bit_vector);
            assert((1u32 << 16) == 0x1_0000) by (bit_vector);
            assert((1u32 << 24) == 0x100_0000) by (bit_vector);
        }
        let digits: u32 = if len <= 1 << 8 {
            2
        } else if len <= 1 << 16 {
            4
        } else if len <= 1 << 24 {
            6
        } else {
            8
        };
        out.push(0x30u8);
        out.push(0x78u8);
        push_hex_pad(out, line_number * 8, digits);
        out.push(0x3au8);
        out.push(0x20u8);
        out.push(0x20u8);
        if chunk.len() >= 4 {
            let left = vstd::slice::slice_subrange(chunk, 0, 4);
            let right = vstd::slice::slice_subrange(chunk, 4, chunk.len());
            self.show_hex(left, out);
            out.push(0x20u8);
            out.push(0x20u8);
            self.show_ascii(left, out);
            out.push(0x20u8);
            out.push(0x20u8);
            self.show_ascii(right, out);
            out.push(0x20u8);
            out.push(0x20u8);
            self.show_hex(right, out);
            out.push(0x0au8);
        } else {
            self.show_hex(chunk, out);
            out.push(0x20u8);
            out.push(0x20u8);
            self.show_ascii(chunk, out);
            out.push(0x20u8);
            out.push(0x20u8);
            out.push(0x0au8);
        }
        proof {
            assert(out@ =~= old(out)@ + line_render(self@.len(), line_number as int, chunk@));
        }
    }

    /// The whole dump as ASCII text: a header with `tag` and the cursors,
    /// then the window eight bytes to a line, or an empty-buffer marker.
    #[verifier::rlimit(100)]
    pub fn show(&self, tag: &str) -> (r: Vec<u8>)
        requires
            self@.wf(),
        ensures
            r@ == show_render(tag.spec_bytes(), self@),
    {
        let mut out: Vec<u8> = Vec::new();
        let tag_bytes = tag.as_bytes();
        let mut i: usize = 0;
        let tn = tag_bytes.len();
        while i < tn
            invariant
                tn == tag_bytes@.len(),
                0 <= i <= tn,
                out@ == tag_bytes@.subrange(0, i as int),
            decreases tn - i,
        {
            let b = tag_bytes[i];
            out.push(b);
            proof {
                assert(out@ =~= tag_bytes@.subrange(0, i + 1));
            }
            i = i + 1;
        }
        proof {
            assert(out@ =~= tag_bytes@);
        }
        out.push(0x20u8);
        out.push(0x49u8);
        out.push(0x4fu8);
        out.push(0x62u8);
        out.push(0x75u8);
        out.push(0x66u8);
        out.push(0x2cu8);
        out.push(0x20u8);
        out.push(0x6cu8);
        out.push(0x69u8);
        out.push(0x6du8);
        out.push(0x69u8);
        out.push(0x74u8);
        out.push(0x73u8);
        out.push(0x3du8);
        out.push(0x5bu8);
        let lo_min = self.lo_min();
        push_dec(&mut out, lo_min);
        out.push(0x2cu8);
        push_dec(&mut out, self.hi_max());
        out.push(0x29u8);
        out.push(0x2cu8);
        out.push(0x20u8);
        out.push(0x62u8);
        out.push(0x6fu8);
        out.push(0x75u8);
        out.push(0x6eu8);
        out.push(0x64u8);
        out.push(0x73u8);
        out.push(0x3du8);
        out.push(0x5bu8);
        push_dec(&mut out, self.lo());
        out.push(0x2cu8);
        push_dec(&mut out, self.hi());
        out.push(0x29u8);
        out.push(0x0au8);
        proof {
            assert(out@ =~= header_render(tag.spec_bytes(), self@));
        }
        if self.is_empty() {
            out.push(0x3cu8);
            out.push(0x65u8);
            out.push(0x6du8);
            out.push(0x70u8);
            out.push(0x74u8);
            out.push(0x79u8);
            out.push(0x20u8);
            out.push(0x62u8);
            out.push(0x75u8);
            out.push(0x66u8);
            out.push(0x66u8);
            out.push(0x65u8);
            out.push(0x72u8);
            out.push(0x3eu8);
            proof {
                assert(out@ =~= show_render(tag.spec_bytes(), self@));
            }
            return out;
        }
        let w = self.as_window_slice();
        let len = w.len();
        let ghost header = header_render(tag.spec_bytes(), self@);
        let mut line: u32 = 0;
        let mut done: usize = 0;
        proof {
            assert(w@.skip(0) =~= w@);
        }
        while done < len
            invariant
                self@.wf(),
                len == self@.len(),
                len == w@.len(),
                w@ == self@.window(),
                0 < len,
                done == 8 * line || done == len,
                0 <= done <= len,
                header == header_render(tag.spec_bytes(), self@),
                out@ + dump_render(self@.len(), w@.skip(done as int), line as int) == header
                    + dump_render(self@.len(), w@, 0),
            decreases len - done,
        {
            let upto = if done + 8 <= len {
                done + 8
            } else {
                len
            };
            let chunk = vstd::slice::slice_subrange(w, done, upto);
            self.show_line(line, chunk, &mut out);
            proof {
                let rest = w@.skip(done as int);
                if rest.len() > 8 {
                    assert(chunk@ =~= rest.subrange(0, 8));
                    assert(w@.skip(upto as int) =~= rest.skip(8));
                } else {
                    assert(chunk@ =~= rest);
                    assert(w@.skip(upto as int) =~= Seq::<u8>::empty());
                }
            }
            done = upto;
            line = line + 1;
        }
        proof {
            assert(w@.skip(len as int) =~= Seq::<u8>::empty());
            assert(out@ =~= header + dump_render(self@.len(), w@, 0));
        }
        out
    }
}

} // verus!
