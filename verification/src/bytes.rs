//! Byte sequences: little-endian numbers, sums and concatenations.
//!
//! The layout of a payload is a concatenation of runs of bytes, and every
//! offset into it is a sum of lengths. The definitions and lemmas here are
//! what the writer and the reader share to speak about both.

use vstd::prelude::*;

verus! {

/// Sum of a sequence of integers.
pub open spec fn sum(s: Seq<int>) -> int
    decreases s.len(),
{
    if s.len() == 0 {
        0
    } else {
        sum(s.drop_last()) + s.last()
    }
}

/// The pieces laid end to end, the first piece first.
pub open spec fn concat(pieces: Seq<Seq<u8>>) -> Seq<u8>
    decreases pieces.len(),
{
    if pieces.len() == 0 {
        Seq::empty()
    } else {
        concat(pieces.drop_last()) + pieces.last()
    }
}

/// The lengths of the pieces, in order.
pub open spec fn lengths(pieces: Seq<Seq<u8>>) -> Seq<int> {
    Seq::new(pieces.len(), |i: int| pieces[i].len() as int)
}

/// Where piece `i` starts in `concat(pieces)`.
pub open spec fn offset_of(pieces: Seq<Seq<u8>>, i: int) -> int {
    sum(lengths(pieces).take(i))
}

pub proof fn lemma_sum_take_next(s: Seq<int>, i: int)
    requires
        0 <= i < s.len(),
    ensures
        sum(s.take(i + 1)) == sum(s.take(i)) + s[i],
{
    assert(s.take(i + 1).drop_last() =~= s.take(i));
}

pub proof fn lemma_sum_take_all(s: Seq<int>)
    ensures
        sum(s.take(s.len() as int)) == sum(s),
        sum(s.take(0)) == 0,
{
    assert(s.take(s.len() as int) =~= s);
}

/// Partial sums of non-negative numbers grow with the prefix.
pub proof fn lemma_sum_take_monotonic(s: Seq<int>, i: int, j: int)
    requires
        0 <= i <= j <= s.len(),
        forall|k: int| 0 <= k < s.len() ==> s[k] >= 0,
    ensures
        0 <= sum(s.take(i)) <= sum(s.take(j)),
    decreases j - i, i,
{
    if i < j {
        lemma_sum_take_monotonic(s, i, j - 1);
        lemma_sum_take_next(s, j - 1);
    } else if i > 0 {
        lemma_sum_take_monotonic(s, i - 1, i - 1);
        lemma_sum_take_next(s, i - 1);
    } else {
        lemma_sum_take_all(s);
    }
}

/// A sum of multiples of `k` is `k` times the sum.
pub proof fn lemma_sum_scaled(s: Seq<int>, t: Seq<int>, k: int)
    requires
        s.len() == t.len(),
        forall|i: int| 0 <= i < s.len() ==> s[i] == k * t[i],
    ensures
        sum(s) == k * sum(t),
    decreases s.len(),
{
    if s.len() > 0 {
        lemma_sum_scaled(s.drop_last(), t.drop_last(), k);
        assert(k * (sum(t.drop_last()) + t.last()) == k * sum(t.drop_last()) + k * t.last())
            by (nonlinear_arith);
    }
}

/// The sum of sums item by item is the sum of the two sums.
pub proof fn lemma_sum_added(s: Seq<int>, t: Seq<int>, u: Seq<int>)
    requires
        s.len() == t.len(),
        s.len() == u.len(),
        forall|i: int| 0 <= i < u.len() ==> u[i] == s[i] + t[i],
    ensures
        sum(u) == sum(s) + sum(t),
    decreases u.len(),
{
    if u.len() > 0 {
        lemma_sum_added(s.drop_last(), t.drop_last(), u.drop_last());
    }
}

/// Sequences that agree item by item have the same sum.
pub proof fn lemma_sum_equal(s: Seq<int>, t: Seq<int>)
    requires
        s.len() == t.len(),
        forall|i: int| 0 <= i < s.len() ==> s[i] == t[i],
    ensures
        sum(s) == sum(t),
{
    assert(s =~= t);
}

pub proof fn lemma_concat_take_next(pieces: Seq<Seq<u8>>, i: int)
    requires
        0 <= i < pieces.len(),
    ensures
        concat(pieces.take(i + 1)) == concat(pieces.take(i)) + pieces[i],
{
    assert(pieces.take(i + 1).drop_last() =~= pieces.take(i));
}

pub proof fn lemma_concat_take_all(pieces: Seq<Seq<u8>>)
    ensures
        concat(pieces.take(pieces.len() as int)) == concat(pieces),
        concat(pieces.take(0)) == Seq::<u8>::empty(),
{
    assert(pieces.take(pieces.len() as int) =~= pieces);
}

/// The length of a concatenation is the sum of the lengths.
pub proof fn lemma_concat_len(pieces: Seq<Seq<u8>>)
    ensures
        concat(pieces).len() == sum(lengths(pieces)),
    decreases pieces.len(),
{
    if pieces.len() > 0 {
        lemma_concat_len(pieces.drop_last());
        assert(lengths(pieces).drop_last() =~= lengths(pieces.drop_last()));
    } else {
        assert(lengths(pieces) =~= Seq::<int>::empty());
    }
}

/// A prefix of the pieces gives a prefix of the concatenation, as long as
/// the offset of the next piece.
pub proof fn lemma_concat_prefix(pieces: Seq<Seq<u8>>, i: int)
    requires
        0 <= i <= pieces.len(),
    ensures
        concat(pieces.take(i)).len() == offset_of(pieces, i),
        0 <= offset_of(pieces, i) <= concat(pieces).len(),
        concat(pieces.take(i)) == concat(pieces).subrange(0, offset_of(pieces, i)),
    decreases pieces.len() - i,
{
    lemma_concat_len(pieces.take(i));
    assert(lengths(pieces.take(i)) =~= lengths(pieces).take(i));
    if i == pieces.len() {
        lemma_concat_take_all(pieces);
        assert(concat(pieces).subrange(0, concat(pieces).len() as int) =~= concat(pieces));
    } else {
        lemma_concat_prefix(pieces, i + 1);
        lemma_concat_take_next(pieces, i);
        lemma_sum_take_next(lengths(pieces), i);
        assert(concat(pieces.take(i)) =~= concat(pieces.take(i + 1)).subrange(
            0,
            offset_of(pieces, i),
        ));
        assert(concat(pieces.take(i)) =~= concat(pieces).subrange(0, offset_of(pieces, i)));
    }
}

/// Piece `i` is found again in the concatenation between its offset and
/// the offset of the piece after it.
pub proof fn lemma_concat_piece(pieces: Seq<Seq<u8>>, i: int)
    requires
        0 <= i < pieces.len(),
    ensures
        0 <= offset_of(pieces, i),
        offset_of(pieces, i + 1) == offset_of(pieces, i) + pieces[i].len(),
        offset_of(pieces, i + 1) <= concat(pieces).len(),
        concat(pieces).subrange(offset_of(pieces, i), offset_of(pieces, i + 1)) == pieces[i],
{
    lemma_concat_prefix(pieces, i);
    lemma_concat_prefix(pieces, i + 1);
    lemma_concat_take_next(pieces, i);
    lemma_sum_take_next(lengths(pieces), i);
    let whole = concat(pieces);
    let a = offset_of(pieces, i);
    let b = offset_of(pieces, i + 1);
    assert(whole.subrange(0, b) == whole.subrange(0, a) + pieces[i]);
    assert(whole.subrange(a, b) =~= whole.subrange(0, b).subrange(a, b));
    assert((whole.subrange(0, a) + pieces[i]).subrange(a, b) =~= pieces[i]);
}

/// The number two bytes stand for, low byte first.
pub open spec fn le16(b0: u8, b1: u8) -> int {
    b0 + 0x100 * b1
}

/// The number four bytes stand for, low byte first.
pub open spec fn le32(b0: u8, b1: u8, b2: u8, b3: u8) -> int {
    b0 + 0x100 * b1 + 0x1_0000 * b2 + 0x100_0000 * b3
}

/// The number eight bytes of `s` from `at` on stand for, low byte first.
pub open spec fn le64_at(s: Seq<u8>, at: int) -> int {
    s[at] + 0x100 * s[at + 1] + 0x1_0000 * s[at + 2] + 0x100_0000 * s[at + 3] + 0x1_0000_0000
        * s[at + 4] + 0x100_0000_0000 * s[at + 5] + 0x1_0000_0000_0000 * s[at + 6]
        + 0x100_0000_0000_0000 * s[at + 7]
}

/// The number two bytes of `s` from `at` on stand for, low byte first.
pub open spec fn le16_at(s: Seq<u8>, at: int) -> int {
    le16(s[at], s[at + 1])
}

/// The number four bytes of `s` from `at` on stand for, low byte first.
pub open spec fn le32_at(s: Seq<u8>, at: int) -> int {
    le32(s[at], s[at + 1], s[at + 2], s[at + 3])
}

/// The two bytes of a 16-bit number, low byte first.
pub open spec fn le16_bytes(x: u16) -> Seq<u8> {
    seq![(x % 0x100) as u8, (x / 0x100) as u8]
}

/// The eight bytes of a 64-bit number, low byte first.
pub open spec fn le64_bytes(x: u64) -> Seq<u8> {
    seq![
        (x % 0x100) as u8,
        (x / 0x100 % 0x100) as u8,
        (x / 0x1_0000 % 0x100) as u8,
        (x / 0x100_0000 % 0x100) as u8,
        (x / 0x1_0000_0000 % 0x100) as u8,
        (x / 0x100_0000_0000 % 0x100) as u8,
        (x / 0x1_0000_0000_0000 % 0x100) as u8,
        (x / 0x100_0000_0000_0000) as u8,
    ]
}

/// Reading back the bytes of a number gives the number.
pub proof fn lemma_le16_round_trip(x: u16)
    ensures
        le16_bytes(x).len() == 2,
        le16_at(le16_bytes(x), 0) == x,
{
}

/// Reading back the bytes of a number gives the number.
pub proof fn lemma_le64_round_trip(x: u64)
    ensures
        le64_bytes(x).len() == 8,
        le64_at(le64_bytes(x), 0) == x,
{
    let q1 = x as int / 0x100;
    let q2 = q1 / 0x100;
    let q3 = q2 / 0x100;
    let q4 = q3 / 0x100;
    let q5 = q4 / 0x100;
    let q6 = q5 / 0x100;
    let q7 = q6 / 0x100;
    assert(x as int / 0x1_0000 == q2);
    assert(x as int / 0x100_0000 == q3);
    assert(x as int / 0x1_0000_0000 == q4);
    assert(x as int / 0x100_0000_0000 == q5);
    assert(x as int / 0x1_0000_0000_0000 == q6);
    assert(x as int / 0x100_0000_0000_0000 == q7);
    let s = le64_bytes(x);
    assert(s[0] == x as int % 0x100);
    assert(s[1] == q1 % 0x100);
    assert(s[2] == q2 % 0x100);
    assert(s[3] == q3 % 0x100);
    assert(s[4] == q4 % 0x100);
    assert(s[5] == q5 % 0x100);
    assert(s[6] == q6 % 0x100);
    assert(s[7] == q7);
}

/// Writes a 16-bit number, low byte first, at the end of `out`.
pub fn push_le16(out: &mut Vec<u8>, x: u16)
    ensures
        final(out)@ == old(out)@ + le16_bytes(x),
{
    out.push((x % 0x100) as u8);
    out.push((x / 0x100) as u8);
    assert(out@ =~= old(out)@ + le16_bytes(x));
}

/// Writes a 64-bit number, low byte first, at the end of `out`.
pub fn push_le64(out: &mut Vec<u8>, x: u64)
    ensures
        final(out)@ == old(out)@ + le64_bytes(x),
{
    out.push((x % 0x100) as u8);
    out.push((x / 0x100 % 0x100) as u8);
    out.push((x / 0x1_0000 % 0x100) as u8);
    out.push((x / 0x100_0000 % 0x100) as u8);
    out.push((x / 0x1_0000_0000 % 0x100) as u8);
    out.push((x / 0x100_0000_0000 % 0x100) as u8);
    out.push((x / 0x1_0000_0000_0000 % 0x100) as u8);
    out.push((x / 0x100_0000_0000_0000) as u8);
    assert(out@ =~= old(out)@ + le64_bytes(x));
}

/// Reads a 16-bit number, low byte first, at `at`.
pub fn read_le16(data: &[u8], at: usize) -> (r: u16)
    requires
        at + 2 <= data.len(),
    ensures
        r == le16_at(data@, at as int),
{
    data[at] as u16 + 0x100 * (data[at + 1] as u16)
}

/// Reads a 32-bit number, low byte first, at `at`.
pub fn read_le32(data: &[u8], at: usize) -> (r: u32)
    requires
        at + 4 <= data.len(),
    ensures
        r == le32_at(data@, at as int),
{
    data[at] as u32 + 0x100 * (data[at + 1] as u32) + 0x1_0000 * (data[at + 2] as u32) + 0x100_0000
        * (data[at + 3] as u32)
}

/// Reads a 64-bit number, low byte first, at `at`.
pub fn read_le64(data: &[u8], at: usize) -> (r: u64)
    requires
        at + 8 <= data.len(),
    ensures
        r == le64_at(data@, at as int),
{
    data[at] as u64 + 0x100 * (data[at + 1] as u64) + 0x1_0000 * (data[at + 2] as u64) + 0x100_0000
        * (data[at + 3] as u64) + 0x1_0000_0000 * (data[at + 4] as u64) + 0x100_0000_0000 * (data[at
        + 5] as u64) + 0x1_0000_0000_0000 * (data[at + 6] as u64) + 0x100_0000_0000_0000 * (data[at
        + 7] as u64)
}

} // verus!
