//! The variable-length integer codec: 1 to 9 bytes, big-endian, base 128.
//!
//! Bytes one through eight contribute their low seven bits and signal
//! continuation with the high bit; a ninth byte, if reached, contributes all
//! eight of its bits.

use vstd::prelude::*;

use crate::error::Error;

verus! {

/// One decoding step: shift the accumulator and take the low seven bits.
pub open spec fn varint_step(acc: u64, b: u8) -> u64 {
    (acc << 7) | ((b & 0x7f) as u64)
}

/// Decoding state after `i` bytes have been folded into `acc`, starting from
/// `buf[off]`. Yields the value and the number of bytes consumed, or `None`
/// when the buffer ends before a terminating byte.
pub open spec fn varint_rec(buf: Seq<u8>, off: int, i: int, acc: u64) -> Option<(u64, usize)>
    decreases 9 - i,
{
    if i < 0 || i >= 9 || off + i < 0 || off + i >= buf.len() {
        None
    } else {
        let b = buf[off + i];
        if i == 8 {
            Some((((acc << 8) | (b as u64)), 9))
        } else if b & 0x80 == 0 {
            Some((varint_step(acc, b), (i + 1) as usize))
        } else {
            varint_rec(buf, off, i + 1, varint_step(acc, b))
        }
    }
}

/// The varint found at `buf[off]`: its value and its length in bytes.
pub open spec fn varint_at(buf: Seq<u8>, off: int) -> Option<(u64, usize)> {
    varint_rec(buf, off, 0, 0)
}

/// A decoded varint consumes between `i + 1` and 9 bytes, all within `buf`.
pub proof fn lemma_varint_rec_len(buf: Seq<u8>, off: int, i: int, acc: u64)
    requires
        varint_rec(buf, off, i, acc) is Some,
    ensures
        i + 1 <= varint_rec(buf, off, i, acc)->Some_0.1 <= 9,
        off + varint_rec(buf, off, i, acc)->Some_0.1 <= buf.len(),
        off + i >= 0,
    decreases 9 - i,
{
    let b = buf[off + i];
    if i < 9 && !(i == 8) && b & 0x80 != 0 {
        lemma_varint_rec_len(buf, off, i + 1, varint_step(acc, b));
    }
}

/// A varint occupies between 1 and 9 bytes, all within `buf`.
pub proof fn lemma_varint_len(buf: Seq<u8>, off: int)
    requires
        varint_at(buf, off) is Some,
    ensures
        1 <= varint_at(buf, off)->Some_0.1 <= 9,
        off + varint_at(buf, off)->Some_0.1 <= buf.len(),
        off >= 0,
{
    lemma_varint_rec_len(buf, off, 0, 0);
}

/// Decode the varint that starts at `buf[offset]`.
///
/// Returns the decoded 64-bit value and the number of bytes consumed, or
/// `Truncated` when the buffer ends before a terminating byte.
pub fn read_varint(buf: &Vec<u8>, offset: usize) -> (r: Result<(u64, usize), Error>)
    ensures
        match r {
            Ok(v) => varint_at(buf@, offset as int) == Some(v),
            Err(e) => e == Error::Truncated && varint_at(buf@, offset as int) is None,
        },
{
    let mut acc: u64 = 0;
    let mut i: usize = 0;
    loop
        invariant
            0 <= i <= 8,
            varint_at(buf@, offset as int) == varint_rec(buf@, offset as int, i as int, acc),
        decreases 9 - i,
    {
        if offset >= buf.len() || i >= buf.len() - offset {
            return Err(Error::Truncated);
        }
        let b = buf[offset + i];
        if i == 8 {
            return Ok(((acc << 8) | (b as u64), 9));
        }
        if b & 0x80 == 0 {
            return Ok(((acc << 7) | ((b & 0x7f) as u64), i + 1));
        }
        acc = (acc << 7) | ((b & 0x7f) as u64);
        i = i + 1;
    }
}

/// How many bytes the encoding of `n` takes: the least `k <= 8` with
/// `n < 2^(7k)`, or 9.
pub open spec fn spec_varint_len(n: u64) -> usize {
    if n < 0x80 {
        1
    } else if n < 0x4000 {
        2
    } else if n < 0x200000 {
        3
    } else if n < 0x10000000 {
        4
    } else if n < 0x8_0000_0000 {
        5
    } else if n < 0x400_0000_0000 {
        6
    } else if n < 0x2_0000_0000_0000 {
        7
    } else if n < 0x100_0000_0000_0000 {
        8
    } else {
        9
    }
}

/// The encoding of `n`: its 7-bit groups, most significant first, each but
/// the last carrying the continuation bit; a value needing more than 56
/// bits takes eight such groups over its top 56 bits and one final byte
/// holding its low 8 bits.
pub open spec fn spec_encode_varint(n: u64) -> Seq<u8> {
    if n < 0x80 {
        seq![(n & 0x7f) as u8]
    } else if n < 0x4000 {
        seq![(((n >> 7) & 0x7f) | 0x80) as u8, (n & 0x7f) as u8]
    } else if n < 0x200000 {
        seq![
            (((n >> 14) & 0x7f) | 0x80) as u8,
            (((n >> 7) & 0x7f) | 0x80) as u8,
            (n & 0x7f) as u8,
        ]
    } else if n < 0x10000000 {
        seq![
            (((n >> 21) & 0x7f) | 0x80) as u8,
            (((n >> 14) & 0x7f) | 0x80) as u8,
            (((n >> 7) & 0x7f) | 0x80) as u8,
            (n & 0x7f) as u8,
        ]
    } else if n < 0x8_0000_0000 {
        seq![
            (((n >> 28) & 0x7f) | 0x80) as u8,
            (((n >> 21) & 0x7f) | 0x80) as u8,
            (((n >> 14) & 0x7f) | 0x80) as u8,
            (((n >> 7) & 0x7f) | 0x80) as u8,
            (n & 0x7f) as u8,
        ]
    } else if n < 0x400_0000_0000 {
        seq![
            (((n >> 35) & 0x7f) | 0x80) as u8,
            (((n >> 28) & 0x7f) | 0x80) as u8,
            (((n >> 21) & 0x7f) | 0x80) as u8,
            (((n >> 14) & 0x7f) | 0x80) as u8,
            (((n >> 7) & 0x7f) | 0x80) as u8,
            (n & 0x7f) as u8,
        ]
    } else if n < 0x2_0000_0000_0000 {
        seq![
            (((n >> 42) & 0x7f) | 0x80) as u8,
            (((n >> 35) & 0x7f) | 0x80) as u8,
            (((n >> 28) & 0x7f) | 0x80) as u8,
            (((n >> 21) & 0x7f) | 0x80) as u8,
            (((n >> 14) & 0x7f) | 0x80) as u8,
            (((n >> 7) & 0x7f) | 0x80) as u8,
            (n & 0x7f) as u8,
        ]
    } else if n < 0x100_0000_0000_0000 {
        seq![
            (((n >> 49) & 0x7f) | 0x80) as u8,
            (((n >> 42) & 0x7f) | 0x80) as u8,
            (((n >> 35) & 0x7f) | 0x80) as u8,
            (((n >> 28) & 0x7f) | 0x80) as u8,
            (((n >> 21) & 0x7f) | 0x80) as u8,
            (((n >> 14) & 0x7f) | 0x80) as u8,
            (((n >> 7) & 0x7f) | 0x80) as u8,
            (n & 0x7f) as u8,
        ]
    } else {
        seq![
            (((n >> 57) & 0x7f) | 0x80) as u8,
            (((n >> 50) & 0x7f) | 0x80) as u8,
            (((n >> 43) & 0x7f) | 0x80) as u8,
            (((n >> 36) & 0x7f) | 0x80) as u8,
            (((n >> 29) & 0x7f) | 0x80) as u8,
            (((n >> 22) & 0x7f) | 0x80) as u8,
            (((n >> 15) & 0x7f) | 0x80) as u8,
            (((n >> 8) & 0x7f) | 0x80) as u8,
            (n & 0xff) as u8,
        ]
    }
}


/// Round trip: decoding the encoding of `n` yields `n` and consumes the
/// whole encoding.
pub proof fn lemma_varint_round_trip(n: u64)
    ensures
        varint_at(spec_encode_varint(n), 0) == Some((n, spec_varint_len(n))),
        spec_encode_varint(n).len() == spec_varint_len(n),
{
    let s = spec_encode_varint(n);
    if n < 0x80 {
        let b0: u8 = (n & 0x7f) as u8;
        assert(b0 & 0x80 == 0 && ((0u64 << 7) | ((b0 & 0x7f) as u64)) == n) by (bit_vector)
            requires
                n < 0x80,
                b0 == (n & 0x7f) as u8,
        ;
        assert(s =~= seq![b0]);
        assert(varint_at(s, 0) == Some((n, 1usize))) by {
            reveal_with_fuel(varint_rec, 10);
        }
    } else if n < 0x4000 {
        let b0: u8 = (((n >> 7) & 0x7f) | 0x80) as u8;
        let b1: u8 = (n & 0x7f) as u8;
        assert(b0 & 0x80 != 0 && b1 & 0x80 == 0 && ((((0u64 << 7) | ((b0 & 0x7f) as u64)) << 7) | ((b1 & 0x7f) as u64)) == n) by (bit_vector)
            requires
                n < 0x4000,
                b0 == (((n >> 7) & 0x7f) | 0x80) as u8,
                b1 == (n & 0x7f) as u8,
        ;
        assert(s =~= seq![b0, b1]);
        assert(varint_at(s, 0) == Some((n, 2usize))) by {
            reveal_with_fuel(varint_rec, 10);
        }
    } else if n < 0x200000 {
        let b0: u8 = (((n >> 14) & 0x7f) | 0x80) as u8;
        let b1: u8 = (((n >> 7) & 0x7f) | 0x80) as u8;
        let b2: u8 = (n & 0x7f) as u8;
        assert(b0 & 0x80 != 0 && b1 & 0x80 != 0 && b2 & 0x80 == 0 && ((((((0u64 << 7) | ((b0 & 0x7f) as u64)) << 7) | ((b1 & 0x7f) as u64)) << 7) | ((b2 & 0x7f) as u64)) == n) by (bit_vector)
            requires
                n < 0x200000,
                b0 == (((n >> 14) & 0x7f) | 0x80) as u8,
                b1 == (((n >> 7) & 0x7f) | 0x80) as u8,
                b2 == (n & 0x7f) as u8,
        ;
        assert(s =~= seq![b0, b1, b2]);
        assert(varint_at(s, 0) == Some((n, 3usize))) by {
            reveal_with_fuel(varint_rec, 10);
        }
    } else if n < 0x10000000 {
        let b0: u8 = (((n >> 21) & 0x7f) | 0x80) as u8;
        let b1: u8 = (((n >> 14) & 0x7f) | 0x80) as u8;
        let b2: u8 = (((n >> 7) & 0x7f) | 0x80) as u8;
        let b3: u8 = (n & 0x7f) as u8;
        assert(b0 & 0x80 != 0 && b1 & 0x80 != 0 && b2 & 0x80 != 0 && b3 & 0x80 == 0 && ((((((((0u64 << 7) | ((b0 & 0x7f) as u64)) << 7) | ((b1 & 0x7f) as u64)) << 7) | ((b2 & 0x7f) as u64)) << 7) | ((b3 & 0x7f) as u64)) == n) by (bit_vector)
            requires
                n < 0x10000000,
                b0 == (((n >> 21) & 0x7f) | 0x80) as u8,
                b1 == (((n >> 14) & 0x7f) | 0x80) as u8,
                b2 == (((n >> 7) & 0x7f) | 0x80) as u8,
                b3 == (n & 0x7f) as u8,
        ;
        assert(s =~= seq![b0, b1, b2, b3]);
        assert(varint_at(s, 0) == Some((n, 4usize))) by {
            reveal_with_fuel(varint_rec, 10);
        }
    } else if n < 0x8_0000_0000 {
        let b0: u8 = (((n >> 28) & 0x7f) | 0x80) as u8;
        let b1: u8 = (((n >> 21) & 0x7f) | 0x80) as u8;
        let b2: u8 = (((n >> 14) & 0x7f) | 0x80) as u8;
        let b3: u8 = (((n >> 7) & 0x7f) | 0x80) as u8;
        let b4: u8 = (n & 0x7f) as u8;
        assert(b0 & 0x80 != 0 && b1 & 0x80 != 0 && b2 & 0x80 != 0 && b3 & 0x80 != 0 && b4 & 0x80 == 0 && ((((((((((0u64 << 7) | ((b0 & 0x7f) as u64)) << 7) | ((b1 & 0x7f) as u64)) << 7) | ((b2 & 0x7f) as u64)) << 7) | ((b3 & 0x7f) as u64)) << 7) | ((b4 & 0x7f) as u64)) == n) by (bit_vector)
            requires
                n < 0x8_0000_0000,
                b0 == (((n >> 28) & 0x7f) | 0x80) as u8,
                b1 == (((n >> 21) & 0x7f) | 0x80) as u8,
                b2 == (((n >> 14) & 0x7f) | 0x80) as u8,
                b3 == (((n >> 7) & 0x7f) | 0x80) as u8,
                b4 == (n & 0x7f) as u8,
        ;
        assert(s =~= seq![b0, b1, b2, b3, b4]);
        assert(varint_at(s, 0) == Some((n, 5usize))) by {
            reveal_with_fuel(varint_rec, 10);
        }
    } else if n < 0x400_0000_0000 {
        let b0: u8 = (((n >> 35) & 0x7f) | 0x80) as u8;
        let b1: u8 = (((n >> 28) & 0x7f) | 0x80) as u8;
        let b2: u8 = (((n >> 21) & 0x7f) | 0x80) as u8;
        let b3: u8 = (((n >> 14) & 0x7f) | 0x80) as u8;
        let b4: u8 = (((n >> 7) & 0x7f) | 0x80) as u8;
        let b5: u8 = (n & 0x7f) as u8;
        assert(b0 & 0x80 != 0 && b1 & 0x80 != 0 && b2 & 0x80 != 0 && b3 & 0x80 != 0 && b4 & 0x80 != 0 && b5 & 0x80 == 0 && ((((((((((((0u64 << 7) | ((b0 & 0x7f) as u64)) << 7) | ((b1 & 0x7f) as u64)) << 7) | ((b2 & 0x7f) as u64)) << 7) | ((b3 & 0x7f) as u64)) << 7) | ((b4 & 0x7f) as u64)) << 7) | ((b5 & 0x7f) as u64)) == n) by (bit_vector)
            requires
                n < 0x400_0000_0000,
                b0 == (((n >> 35) & 0x7f) | 0x80) as u8,
                b1 == (((n >> 28) & 0x7f) | 0x80) as u8,
                b2 == (((n >> 21) & 0x7f) | 0x80) as u8,
                b3 == (((n >> 14) & 0x7f) | 0x80) as u8,
                b4 == (((n >> 7) & 0x7f) | 0x80) as u8,
                b5 == (n & 0x7f) as u8,
        ;
        assert(s =~= seq![b0, b1, b2, b3, b4, b5]);
        assert(varint_at(s, 0) == Some((n, 6usize))) by {
            reveal_with_fuel(varint_rec, 10);
        }
    } else if n < 0x2_0000_0000_0000 {
        let b0: u8 = (((n >> 42) & 0x7f) | 0x80) as u8;
        let b1: u8 = (((n >> 35) & 0x7f) | 0x80) as u8;
        let b2: u8 = (((n >> 28) & 0x7f) | 0x80) as u8;
        let b3: u8 = (((n >> 21) & 0x7f) | 0x80) as u8;
        let b4: u8 = (((n >> 14) & 0x7f) | 0x80) as u8;
        let b5: u8 = (((n >> 7) & 0x7f) | 0x80) as u8;
        let b6: u8 = (n & 0x7f) as u8;
        assert(b0 & 0x80 != 0 && b1 & 0x80 != 0 && b2 & 0x80 != 0 && b3 & 0x80 != 0 && b4 & 0x80 != 0 && b5 & 0x80 != 0 && b6 & 0x80 == 0 && ((((((((((((((0u64 << 7) | ((b0 & 0x7f) as u64)) << 7) | ((b1 & 0x7f) as u64)) << 7) | ((b2 & 0x7f) as u64)) << 7) | ((b3 & 0x7f) as u64)) << 7) | ((b4 & 0x7f) as u64)) << 7) | ((b5 & 0x7f) as u64)) << 7) | ((b6 & 0x7f) as u64)) == n) by (bit_vector)
            requires
                n < 0x2_0000_0000_0000,
                b0 == (((n >> 42) & 0x7f) | 0x80) as u8,
                b1 == (((n >> 35) & 0x7f) | 0x80) as u8,
                b2 == (((n >> 28) & 0x7f) | 0x80) as u8,
                b3 == (((n >> 21) & 0x7f) | 0x80) as u8,
                b4 == (((n >> 14) & 0x7f) | 0x80) as u8,
                b5 == (((n >> 7) & 0x7f) | 0x80) as u8,
                b6 == (n & 0x7f) as u8,
        ;
        assert(s =~= seq![b0, b1, b2, b3, b4, b5, b6]);
        assert(varint_at(s, 0) == Some((n, 7usize))) by {
            reveal_with_fuel(varint_rec, 10);
        }
    } else if n < 0x100_0000_0000_0000 {
        let b0: u8 = (((n >> 49) & 0x7f) | 0x80) as u8;
        let b1: u8 = (((n >> 42) & 0x7f) | 0x80) as u8;
        let b2: u8 = (((n >> 35) & 0x7f) | 0x80) as u8;
        let b3: u8 = (((n >> 28) & 0x7f) | 0x80) as u8;
        let b4: u8 = (((n >> 21) & 0x7f) | 0x80) as u8;
        let b5: u8 = (((n >> 14) & 0x7f) | 0x80) as u8;
        let b6: u8 = (((n >> 7) & 0x7f) | 0x80) as u8;
        let b7: u8 = (n & 0x7f) as u8;
        assert(b0 & 0x80 != 0 && b1 & 0x80 != 0 && b2 & 0x80 != 0 && b3 & 0x80 != 0 && b4 & 0x80 != 0 && b5 & 0x80 != 0 && b6 & 0x80 != 0 && b7 & 0x80 == 0 && ((((((((((((((((0u64 << 7) | ((b0 & 0x7f) as u64)) << 7) | ((b1 & 0x7f) as u64)) << 7) | ((b2 & 0x7f) as u64)) << 7) | ((b3 & 0x7f) as u64)) << 7) | ((b4 & 0x7f) as u64)) << 7) | ((b5 & 0x7f) as u64)) << 7) | ((b6 & 0x7f) as u64)) << 7) | ((b7 & 0x7f) as u64)) == n) by (bit_vector)
            requires
                n < 0x100_0000_0000_0000,
                b0 == (((n >> 49) & 0x7f) | 0x80) as u8,
                b1 == (((n >> 42) & 0x7f) | 0x80) as u8,
                b2 == (((n >> 35) & 0x7f) | 0x80) as u8,
                b3 == (((n >> 28) & 0x7f) | 0x80) as u8,
                b4 == (((n >> 21) & 0x7f) | 0x80) as u8,
                b5 == (((n >> 14) & 0x7f) | 0x80) as u8,
                b6 == (((n >> 7) & 0x7f) | 0x80) as u8,
                b7 == (n & 0x7f) as u8,
        ;
        assert(s =~= seq![b0, b1, b2, b3, b4, b5, b6, b7]);
        assert(varint_at(s, 0) == Some((n, 8usize))) by {
            reveal_with_fuel(varint_rec, 10);
        }
    } else {
        let b0: u8 = (((n >> 57) & 0x7f) | 0x80) as u8;
        let b1: u8 = (((n >> 50) & 0x7f) | 0x80) as u8;
        let b2: u8 = (((n >> 43) & 0x7f) | 0x80) as u8;
        let b3: u8 = (((n >> 36) & 0x7f) | 0x80) as u8;
        let b4: u8 = (((n >> 29) & 0x7f) | 0x80) as u8;
        let b5: u8 = (((n >> 22) & 0x7f) | 0x80) as u8;
        let b6: u8 = (((n >> 15) & 0x7f) | 0x80) as u8;
        let b7: u8 = (((n >> 8) & 0x7f) | 0x80) as u8;
        let b8: u8 = (n & 0xff) as u8;
        assert(b0 & 0x80 != 0 && b1 & 0x80 != 0 && b2 & 0x80 != 0 && b3 & 0x80 != 0 && b4 & 0x80 != 0 && b5 & 0x80 != 0 && b6 & 0x80 != 0 && b7 & 0x80 != 0 && ((((((((((((((((((0u64 << 7) | ((b0 & 0x7f) as u64)) << 7) | ((b1 & 0x7f) as u64)) << 7) | ((b2 & 0x7f) as u64)) << 7) | ((b3 & 0x7f) as u64)) << 7) | ((b4 & 0x7f) as u64)) << 7) | ((b5 & 0x7f) as u64)) << 7) | ((b6 & 0x7f) as u64)) << 7) | ((b7 & 0x7f) as u64)) << 8) | (b8 as u64)) == n) by (bit_vector)
            requires
                n >= 0x100_0000_0000_0000,
                b0 == (((n >> 57) & 0x7f) | 0x80) as u8,
                b1 == (((n >> 50) & 0x7f) | 0x80) as u8,
                b2 == (((n >> 43) & 0x7f) | 0x80) as u8,
                b3 == (((n >> 36) & 0x7f) | 0x80) as u8,
                b4 == (((n >> 29) & 0x7f) | 0x80) as u8,
                b5 == (((n >> 22) & 0x7f) | 0x80) as u8,
                b6 == (((n >> 15) & 0x7f) | 0x80) as u8,
                b7 == (((n >> 8) & 0x7f) | 0x80) as u8,
                b8 == (n & 0xff) as u8,
        ;
        assert(s =~= seq![b0, b1, b2, b3, b4, b5, b6, b7, b8]);
        assert(varint_at(s, 0) == Some((n, 9usize))) by {
            reveal_with_fuel(varint_rec, 10);
        }
    }
}

/// Encode `n` as a varint: between one and nine bytes whose decoding
/// yields `n` back and consumes them all.
pub fn encode_varint(n: u64) -> (r: Vec<u8>)
    ensures
        r@ == spec_encode_varint(n),
        r.len() == spec_varint_len(n),
        varint_at(r@, 0) == Some((n, r.len() as usize)),
{
    proof {
        lemma_varint_round_trip(n);
    }
    let mut v: Vec<u8> = Vec::new();
    if n < 0x80 {
        v.push((n & 0x7f) as u8);
    } else if n < 0x4000 {
        v.push((((n >> 7) & 0x7f) | 0x80) as u8);
        v.push((n & 0x7f) as u8);
    } else if n < 0x200000 {
        v.push((((n >> 14) & 0x7f) | 0x80) as u8);
        v.push((((n >> 7) & 0x7f) | 0x80) as u8);
        v.push((n & 0x7f) as u8);
    } else if n < 0x10000000 {
        v.push((((n >> 21) & 0x7f) | 0x80) as u8);
        v.push((((n >> 14) & 0x7f) | 0x80) as u8);
        v.push((((n >> 7) & 0x7f) | 0x80) as u8);
        v.push((n & 0x7f) as u8);
    } else if n < 0x8_0000_0000 {
        v.push((((n >> 28) & 0x7f) | 0x80) as u8);
        v.push((((n >> 21) & 0x7f) | 0x80) as u8);
        v.push((((n >> 14) & 0x7f) | 0x80) as u8);
        v.push((((n >> 7) & 0x7f) | 0x80) as u8);
        v.push((n & 0x7f) as u8);
    } else if n < 0x400_0000_0000 {
        v.push((((n >> 35) & 0x7f) | 0x80) as u8);
        v.push((((n >> 28) & 0x7f) | 0x80) as u8);
        v.push((((n >> 21) & 0x7f) | 0x80) as u8);
        v.push((((n >> 14) & 0x7f) | 0x80) as u8);
        v.push((((n >> 7) & 0x7f) | 0x80) as u8);
        v.push((n & 0x7f) as u8);
    } else if n < 0x2_0000_0000_0000 {
        v.push((((n >> 42) & 0x7f) | 0x80) as u8);
        v.push((((n >> 35) & 0x7f) | 0x80) as u8);
        v.push((((n >> 28) & 0x7f) | 0x80) as u8);
        v.push((((n >> 21) & 0x7f) | 0x80) as u8);
        v.push((((n >> 14) & 0x7f) | 0x80) as u8);
        v.push((((n >> 7) & 0x7f) | 0x80) as u8);
        v.push((n & 0x7f) as u8);
    } else if n < 0x100_0000_0000_0000 {
        v.push((((n >> 49) & 0x7f) | 0x80) as u8);
        v.push((((n >> 42) & 0x7f) | 0x80) as u8);
        v.push((((n >> 35) & 0x7f) | 0x80) as u8);
        v.push((((n >> 28) & 0x7f) | 0x80) as u8);
        v.push((((n >> 21) & 0x7f) | 0x80) as u8);
        v.push((((n >> 14) & 0x7f) | 0x80) as u8);
        v.push((((n >> 7) & 0x7f) | 0x80) as u8);
        v.push((n & 0x7f) as u8);
    } else {
        v.push((((n >> 57) & 0x7f) | 0x80) as u8);
        v.push((((n >> 50) & 0x7f) | 0x80) as u8);
        v.push((((n >> 43) & 0x7f) | 0x80) as u8);
        v.push((((n >> 36) & 0x7f) | 0x80) as u8);
        v.push((((n >> 29) & 0x7f) | 0x80) as u8);
        v.push((((n >> 22) & 0x7f) | 0x80) as u8);
        v.push((((n >> 15) & 0x7f) | 0x80) as u8);
        v.push((((n >> 8) & 0x7f) | 0x80) as u8);
        v.push((n & 0xff) as u8);
    }
    proof {
        assert(v@ =~= spec_encode_varint(n));
    }
    v
}

} // verus!
