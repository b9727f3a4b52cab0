//! Little- and big-endian encodings of fixed-width unsigned integers.

use vstd::prelude::*;

verus! {

/// The four bytes of `x`, least significant first.
pub open spec fn le_u32(x: u32) -> Seq<u8> {
    seq![x as u8, (x >> 8u32) as u8, (x >> 16u32) as u8, (x >> 24u32) as u8]
}

/// The number whose little-endian bytes are `b[0..4]`.
pub open spec fn u32_of_le(b: Seq<u8>) -> u32 {
    (b[0] as u32) | ((b[1] as u32) << 8u32) | ((b[2] as u32) << 16u32) | ((b[3] as u32) << 24u32)
}

/// The eight bytes of `x`, least significant first.
pub open spec fn le_u64(x: u64) -> Seq<u8> {
    seq![
        x as u8,
        (x >> 8u64) as u8,
        (x >> 16u64) as u8,
        (x >> 24u64) as u8,
        (x >> 32u64) as u8,
        (x >> 40u64) as u8,
        (x >> 48u64) as u8,
        (x >> 56u64) as u8,
    ]
}

/// The number whose little-endian bytes are `b[0..8]`.
pub open spec fn u64_of_le(b: Seq<u8>) -> u64 {
    (b[0] as u64) | ((b[1] as u64) << 8u64) | ((b[2] as u64) << 16u64) | ((b[3] as u64) << 24u64)
        | ((b[4] as u64) << 32u64) | ((b[5] as u64) << 40u64) | ((b[6] as u64) << 48u64) | ((
    b[7] as u64) << 56u64)
}

pub proof fn lemma_u32_le_round_trip(x: u32)
    ensures
        le_u32(x).len() == 4,
        u32_of_le(le_u32(x)) == x,
{
    let (b0, b1, b2, b3) = (x as u8, (x >> 8u32) as u8, (x >> 16u32) as u8, (x >> 24u32) as u8);
    assert((b0 as u32) | ((b1 as u32) << 8u32) | ((b2 as u32) << 16u32) | ((b3 as u32) << 24u32)
        == x) by (bit_vector)
        requires
            b0 == x as u8,
            b1 == (x >> 8u32) as u8,
            b2 == (x >> 16u32) as u8,
            b3 == (x >> 24u32) as u8,
    ;
}

pub proof fn lemma_le_u32_round_trip(b: Seq<u8>)
    requires
        b.len() == 4,
    ensures
        le_u32(u32_of_le(b)) == b,
{
    let (b0, b1, b2, b3) = (b[0], b[1], b[2], b[3]);
    let x = u32_of_le(b);
    assert(x as u8 == b0 && (x >> 8u32) as u8 == b1 && (x >> 16u32) as u8 == b2 && (x >> 24u32) as u8
        == b3) by (bit_vector)
        requires
            x == (b0 as u32) | ((b1 as u32) << 8u32) | ((b2 as u32) << 16u32) | ((b3 as u32) << 24u32),
    ;
    assert(le_u32(x) =~= b);
}

pub proof fn lemma_u64_le_round_trip(x: u64)
    ensures
        le_u64(x).len() == 8,
        u64_of_le(le_u64(x)) == x,
{
    let (b0, b1, b2, b3) = (x as u8, (x >> 8u64) as u8, (x >> 16u64) as u8, (x >> 24u64) as u8);
    let (b4, b5, b6, b7) = ((x >> 32u64) as u8, (x >> 40u64) as u8, (x >> 48u64) as u8, (x >> 56u64) as u8);
    assert((b0 as u64) | ((b1 as u64) << 8u64) | ((b2 as u64) << 16u64) | ((b3 as u64) << 24u64)
        | ((b4 as u64) << 32u64) | ((b5 as u64) << 40u64) | ((b6 as u64) << 48u64) | ((b7 as u64)
        << 56u64) == x) by (bit_vector)
        requires
            b0 == x as u8,
            b1 == (x >> 8u64) as u8,
            b2 == (x >> 16u64) as u8,
            b3 == (x >> 24u64) as u8,
            b4 == (x >> 32u64) as u8,
            b5 == (x >> 40u64) as u8,
            b6 == (x >> 48u64) as u8,
            b7 == (x >> 56u64) as u8,
    ;
}

pub proof fn lemma_le_u64_round_trip(b: Seq<u8>)
    requires
        b.len() == 8,
    ensures
        le_u64(u64_of_le(b)) == b,
{
    let (b0, b1, b2, b3, b4, b5, b6, b7) = (b[0], b[1], b[2], b[3], b[4], b[5], b[6], b[7]);
    let x = u64_of_le(b);
    assert(x as u8 == b0 && (x >> 8u64) as u8 == b1 && (x >> 16u64) as u8 == b2 && (x >> 24u64) as u8
        == b3 && (x >> 32u64) as u8 == b4 && (x >> 40u64) as u8 == b5 && (x >> 48u64) as u8 == b6
        && (x >> 56u64) as u8 == b7) by (bit_vector)
        requires
            x == (b0 as u64) | ((b1 as u64) << 8u64) | ((b2 as u64) << 16u64) | ((b3 as u64) << 24u64)
                | ((b4 as u64) << 32u64) | ((b5 as u64) << 40u64) | ((b6 as u64) << 48u64) | ((
            b7 as u64) << 56u64),
    ;
    assert(le_u64(x) =~= b);
}

/// Appends the four little-endian bytes of `x` to `out`.
pub fn push_u32_le(out: &mut Vec<u8>, x: u32)
    ensures
        final(out)@ == old(out)@ + le_u32(x),
{
    out.push(x as u8);
    out.push((x >> 8u32) as u8);
    out.push((x >> 16u32) as u8);
    out.push((x >> 24u32) as u8);
    assert(final(out)@ =~= old(out)@ + le_u32(x));
}

/// Appends the eight little-endian bytes of `x` to `out`.
pub fn push_u64_le(out: &mut Vec<u8>, x: u64)
    ensures
        final(out)@ == old(out)@ + le_u64(x),
{
    out.push(x as u8);
    out.push((x >> 8u64) as u8);
    out.push((x >> 16u64) as u8);
    out.push((x >> 24u64) as u8);
    out.push((x >> 32u64) as u8);
    out.push((x >> 40u64) as u8);
    out.push((x >> 48u64) as u8);
    out.push((x >> 56u64) as u8);
    assert(final(out)@ =~= old(out)@ + le_u64(x));
}

/// Reads the little-endian `u32` stored at `data[at..at + 4]`.
pub fn read_u32_le(data: &[u8], at: usize) -> (r: u32)
    requires
        at + 4 <= data@.len(),
    ensures
        r == u32_of_le(data@.subrange(at as int, at + 4)),
{
    (data[at] as u32) | ((data[at + 1] as u32) << 8u32) | ((data[at + 2] as u32) << 16u32) | ((
    data[at + 3] as u32) << 24u32)
}

/// Reads the little-endian `u64` stored at `data[at..at + 8]`.
pub fn read_u64_le(data: &[u8], at: usize) -> (r: u64)
    requires
        at + 8 <= data@.len(),
    ensures
        r == u64_of_le(data@.subrange(at as int, at + 8)),
{
    (data[at] as u64) | ((data[at + 1] as u64) << 8u64) | ((data[at + 2] as u64) << 16u64) | ((
    data[at + 3] as u64) << 24u64) | ((data[at + 4] as u64) << 32u64) | ((data[at + 5] as u64)
        << 40u64) | ((data[at + 6] as u64) << 48u64) | ((data[at + 7] as u64) << 56u64)
}

/// The four bytes of `x`, most significant first: their byte-wise order is
/// the numeric order.
pub open spec fn be_u32(x: u32) -> Seq<u8> {
    seq![(x >> 24u32) as u8, (x >> 16u32) as u8, (x >> 8u32) as u8, x as u8]
}

/// The number whose big-endian bytes are `b[0..4]`.
pub open spec fn u32_of_be(b: Seq<u8>) -> u32 {
    ((b[0] as u32) << 24u32) | ((b[1] as u32) << 16u32) | ((b[2] as u32) << 8u32) | (b[3] as u32)
}

pub proof fn lemma_be_u32_round_trip(b: Seq<u8>)
    requires
        b.len() == 4,
    ensures
        be_u32(u32_of_be(b)) == b,
{
    let (b0, b1, b2, b3) = (b[0], b[1], b[2], b[3]);
    let x = u32_of_be(b);
    assert((x >> 24u32) as u8 == b0 && (x >> 16u32) as u8 == b1 && (x >> 8u32) as u8 == b2 && x as u8
        == b3) by (bit_vector)
        requires
            x == ((b0 as u32) << 24u32) | ((b1 as u32) << 16u32) | ((b2 as u32) << 8u32) | (b3 as u32),
    ;
    assert(be_u32(x) =~= b);
}

pub proof fn lemma_u32_be_round_trip(x: u32)
    ensures
        be_u32(x).len() == 4,
        u32_of_be(be_u32(x)) == x,
{
    let (b0, b1, b2, b3) = ((x >> 24u32) as u8, (x >> 16u32) as u8, (x >> 8u32) as u8, x as u8);
    assert(((b0 as u32) << 24u32) | ((b1 as u32) << 16u32) | ((b2 as u32) << 8u32) | (b3 as u32) == x)
        by (bit_vector)
        requires
            b0 == (x >> 24u32) as u8,
            b1 == (x >> 16u32) as u8,
            b2 == (x >> 8u32) as u8,
            b3 == x as u8,
    ;
}

/// Big-endian bytes that differ first at byte `i`, smaller in `a`, come from
/// a smaller number.
pub proof fn lemma_be_u32_first_difference(a: u32, b: u32, i: int)
    requires
        0 <= i < 4,
        be_u32(a).subrange(0, i) == be_u32(b).subrange(0, i),
        be_u32(a)[i] < be_u32(b)[i],
    ensures
        a < b,
{
    let (a0, a1, a2, a3) = ((a >> 24u32) as u8, (a >> 16u32) as u8, (a >> 8u32) as u8, a as u8);
    let (b0, b1, b2, b3) = ((b >> 24u32) as u8, (b >> 16u32) as u8, (b >> 8u32) as u8, b as u8);
    let sa = be_u32(a);
    let sb = be_u32(b);
    assert(sa[0] == a0 && sa[1] == a1 && sa[2] == a2 && sa[3] == a3);
    assert(sb[0] == b0 && sb[1] == b1 && sb[2] == b2 && sb[3] == b3);
    assert(forall|k: int| 0 <= k < i ==> sa[k] == #[trigger] sb[k]) by {
        assert forall|k: int| 0 <= k < i implies sa[k] == #[trigger] sb[k] by {
            assert(sa.subrange(0, i)[k] == sb.subrange(0, i)[k]);
        }
    }
    if i == 0 {
        assert(a0 < b0);
        assert(a < b) by (bit_vector)
            requires
                a0 == (a >> 24u32) as u8,
                b0 == (b >> 24u32) as u8,
                a0 < b0,
        ;
    } else if i == 1 {
        assert(sa[0] == sb[0]);
        assert(a0 == b0 && a1 < b1);
        assert(a < b) by (bit_vector)
            requires
                a0 == (a >> 24u32) as u8,
                b0 == (b >> 24u32) as u8,
                a1 == (a >> 16u32) as u8,
                b1 == (b >> 16u32) as u8,
                a0 == b0,
                a1 < b1,
        ;
    } else if i == 2 {
        assert(sa[0] == sb[0] && sa[1] == sb[1]);
        assert(a0 == b0 && a1 == b1 && a2 < b2);
        assert(a < b) by (bit_vector)
            requires
                a0 == (a >> 24u32) as u8,
                b0 == (b >> 24u32) as u8,
                a1 == (a >> 16u32) as u8,
                b1 == (b >> 16u32) as u8,
                a2 == (a >> 8u32) as u8,
                b2 == (b >> 8u32) as u8,
                a0 == b0,
                a1 == b1,
                a2 < b2,
        ;
    } else {
        assert(sa[0] == sb[0] && sa[1] == sb[1] && sa[2] == sb[2]);
        assert(a0 == b0 && a1 == b1 && a2 == b2 && a3 < b3);
        assert(a < b) by (bit_vector)
            requires
                a0 == (a >> 24u32) as u8,
                b0 == (b >> 24u32) as u8,
                a1 == (a >> 16u32) as u8,
                b1 == (b >> 16u32) as u8,
                a2 == (a >> 8u32) as u8,
                b2 == (b >> 8u32) as u8,
                a3 == a as u8,
                b3 == b as u8,
                a0 == b0,
                a1 == b1,
                a2 == b2,
                a3 < b3,
        ;
    }
}

/// Appends the four big-endian bytes of `x` to `out`.
pub fn push_u32_be(out: &mut Vec<u8>, x: u32)
    ensures
        final(out)@ == old(out)@ + be_u32(x),
{
    out.push((x >> 24u32) as u8);
    out.push((x >> 16u32) as u8);
    out.push((x >> 8u32) as u8);
    out.push(x as u8);
    assert(final(out)@ =~= old(out)@ + be_u32(x));
}

/// Reads the big-endian `u32` stored at `data[at..at + 4]`.
pub fn read_u32_be(data: &[u8], at: usize) -> (r: u32)
    requires
        at + 4 <= data@.len(),
    ensures
        r == u32_of_be(data@.subrange(at as int, at + 4)),
{
    ((data[at] as u32) << 24u32) | ((data[at + 1] as u32) << 16u32) | ((data[at + 2] as u32) << 8u32)
        | (data[at + 3] as u32)
}

} // verus!
