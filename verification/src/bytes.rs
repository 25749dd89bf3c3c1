//! Small helpers over byte buffers: big-endian integer reads, decimal
//! rendering, ASCII case folding, equality and substring search.

use vstd::prelude::*;

verus! {

/// The big-endian 16-bit integer at `s[i]`, `s[i + 1]`.
pub open spec fn be16(s: Seq<u8>, i: int) -> int {
    s[i] * 256 + s[i + 1]
}

/// The big-endian 32-bit integer at `s[i .. i + 4]`.
pub open spec fn be32(s: Seq<u8>, i: int) -> int {
    s[i] * 0x1000000 + s[i + 1] * 0x10000 + s[i + 2] * 0x100 + s[i + 3]
}

/// Read a big-endian 16-bit integer.
pub fn read_be16(s: &Vec<u8>, i: usize) -> (r: u16)
    requires
        i + 2 <= s.len(),
    ensures
        r == be16(s@, i as int),
{
    (s[i] as u16) * 256 + (s[i + 1] as u16)
}

/// Read a big-endian 32-bit integer.
pub fn read_be32(s: &Vec<u8>, i: usize) -> (r: u32)
    requires
        i + 4 <= s.len(),
    ensures
        r == be32(s@, i as int),
{
    (s[i] as u32) * 0x1000000 + (s[i + 1] as u32) * 0x10000 + (s[i + 2] as u32) * 0x100 + (s[i
        + 3] as u32)
}

/// The unsigned big-endian value of a whole byte string, folded left to
/// right through a 64-bit accumulator (bytes beyond the eighth shift the
/// most significant bits out, as the engine's integer reinterpretation does).
pub open spec fn be_uint(bytes: Seq<u8>) -> u64
    decreases bytes.len(),
{
    if bytes.len() == 0 {
        0
    } else {
        (be_uint(bytes.drop_last()) << 8) | (bytes.last() as u64)
    }
}

/// Fold a byte string into its unsigned big-endian 64-bit value.
pub fn read_be_uint(bytes: &Vec<u8>) -> (r: u64)
    ensures
        r == be_uint(bytes@),
{
    let mut acc: u64 = 0;
    let mut i: usize = 0;
    while i < bytes.len()
        invariant
            0 <= i <= bytes.len(),
            acc == be_uint(bytes@.take(i as int)),
        decreases bytes.len() - i,
    {
        acc = (acc << 8) | (bytes[i] as u64);
        proof {
            assert(bytes@.take(i + 1).drop_last() =~= bytes@.take(i as int));
            assert(bytes@.take(i + 1).last() == bytes@[i as int]);
        }
        i = i + 1;
    }
    proof {
        assert(bytes@.take(bytes@.len() as int) =~= bytes@);
    }
    acc
}

/// The decimal digits of `n`, as ASCII bytes.
pub open spec fn spec_u64_decimal(n: u64) -> Seq<u8>
    decreases n,
{
    if n < 10 {
        seq![(0x30 + n) as u8]
    } else {
        spec_u64_decimal(n / 10).push((0x30 + n % 10) as u8)
    }
}

/// Render `n` in decimal, as ASCII bytes.
pub fn u64_to_decimal(n: u64) -> (r: Vec<u8>)
    ensures
        r@ == spec_u64_decimal(n),
    decreases n,
{
    if n < 10 {
        let mut v: Vec<u8> = Vec::new();
        v.push(0x30 + (n as u8));
        proof {
            assert(v@ =~= spec_u64_decimal(n));
        }
        v
    } else {
        let mut v = u64_to_decimal(n / 10);
        v.push(0x30 + ((n % 10) as u8));
        v
    }
}

/// ASCII-lowercase a single byte.
pub open spec fn lower_byte(b: u8) -> u8 {
    if 0x41 <= b <= 0x5a {
        (b + 0x20) as u8
    } else {
        b
    }
}

/// ASCII-lowercase a whole byte string.
pub open spec fn spec_lower(s: Seq<u8>) -> Seq<u8> {
    s.map_values(|b: u8| lower_byte(b))
}

/// ASCII-lowercase a byte string.
pub fn ascii_lower(s: &Vec<u8>) -> (r: Vec<u8>)
    ensures
        r@ == spec_lower(s@),
{
    let mut v: Vec<u8> = Vec::new();
    let mut i: usize = 0;
    while i < s.len()
        invariant
            0 <= i <= s.len(),
            v@ =~= spec_lower(s@).take(i as int),
        decreases s.len() - i,
    {
        let b = s[i];
        if 0x41 <= b && b <= 0x5a {
            v.push(b + 0x20);
        } else {
            v.push(b);
        }
        proof {
            assert(v@ =~= spec_lower(s@).take(i + 1));
        }
        i = i + 1;
    }
    proof {
        assert(spec_lower(s@).take(s@.len() as int) =~= spec_lower(s@));
    }
    v
}

/// Whether two byte strings are equal.
pub fn bytes_eq(a: &Vec<u8>, b: &Vec<u8>) -> (r: bool)
    ensures
        r <==> a@ == b@,
{
    if a.len() != b.len() {
        return false;
    }
    let mut i: usize = 0;
    while i < a.len()
        invariant
            0 <= i <= a.len(),
            a.len() == b.len(),
            forall|j: int| 0 <= j < i ==> a@[j] == b@[j],
        decreases a.len() - i,
    {
        if a[i] != b[i] {
            return false;
        }
        i = i + 1;
    }
    proof {
        assert(a@ =~= b@);
    }
    true
}

/// Whether two byte strings are equal after ASCII case folding.
pub fn bytes_eq_ignore_case(a: &Vec<u8>, b: &Vec<u8>) -> (r: bool)
    ensures
        r <==> spec_lower(a@) == spec_lower(b@),
{
    let la = ascii_lower(a);
    let lb = ascii_lower(b);
    bytes_eq(&la, &lb)
}

/// Whether `needle` occurs as a contiguous run inside `hay`.
pub open spec fn contains_sub(hay: Seq<u8>, needle: Seq<u8>) -> bool {
    exists|i: int|
        0 <= i && i + needle.len() <= hay.len() && #[trigger] hay.subrange(i, i + needle.len())
            == needle
}

/// Search for `needle` inside `hay`.
pub fn find_sub(hay: &Vec<u8>, needle: &Vec<u8>) -> (r: bool)
    ensures
        r <==> contains_sub(hay@, needle@),
{
    if needle.len() > hay.len() {
        proof {
            assert(!contains_sub(hay@, needle@));
        }
        return false;
    }
    let mut i: usize = 0;
    while i <= hay.len() - needle.len()
        invariant
            needle.len() <= hay.len(),
            0 <= i <= hay.len() - needle.len() + 1,
            forall|k: int|
                0 <= k < i ==> #[trigger] hay@.subrange(k, k + needle@.len()) != needle@,
        decreases hay.len() + 1 - needle.len() - i,
    {
        let mut j: usize = 0;
        let mut hit = true;
        while j < needle.len()
            invariant
                0 <= j <= needle.len(),
                i + needle.len() <= hay.len(),
                hit || j == needle.len(),
                hit <==> forall|m: int| 0 <= m < j ==> hay@[i + m] == needle@[m],
            decreases needle.len() - j,
        {
            if hay[i + j] != needle[j] {
                hit = false;
                proof {
                    assert(hay@[i + j] != needle@[j as int]);
                }
                j = needle.len();
            } else {
                proof {
                    assert(forall|m: int|
                        0 <= m < j + 1 ==> hay@[i + m] == needle@[m]) by {
                        assert(hay@[i + j] == needle@[j as int]);
                    }
                }
                j = j + 1;
            }
        }
        if hit {
            proof {
                assert(hay@.subrange(i as int, i + needle@.len()) =~= needle@);
            }
            return true;
        }
        proof {
            if hay@.subrange(i as int, i + needle@.len()) == needle@ {
                assert forall|m: int| 0 <= m < needle@.len() implies hay@[i + m] == needle@[m] by {
                    assert(hay@.subrange(i as int, i + needle@.len())[m] == needle@[m]);
                }
                assert(false);
            }
        }
        i = i + 1;
    }
    proof {
        assert(!contains_sub(hay@, needle@)) by {
            assert(forall|k: int|
                0 <= k && k + needle@.len() <= hay@.len() ==> #[trigger] hay@.subrange(
                    k,
                    k + needle@.len(),
                ) != needle@);
        }
    }
    false
}

} // verus!
