//! Buffer comparators: count the positions at which two equal-length buffers
//! agree, either byte by byte or after decoding fixed-width little-endian
//! numeric elements.
//!
//! Signed and unsigned decodings of the same width agree on equality, because
//! fixed-width two's-complement decoding is a bijection on bit patterns; the
//! per-type entry points therefore all share one specification, the count of
//! element positions whose little-endian values are equal.

use vstd::prelude::*;

verus! {

/// The number of positions at which two byte sequences of equal length agree.
pub open spec fn count_eq_bytes(l: Seq<u8>, r: Seq<u8>) -> nat
    recommends
        l.len() == r.len(),
    decreases l.len(),
{
    if l.len() == 0 || r.len() == 0 {
        0
    } else {
        count_eq_bytes(l.drop_last(), r.drop_last()) + if l.last() == r.last() {
            1nat
        } else {
            0nat
        }
    }
}

/// The count of agreeing positions never exceeds the length compared.
pub proof fn lemma_count_eq_bytes_le_len(l: Seq<u8>, r: Seq<u8>)
    ensures
        count_eq_bytes(l, r) <= l.len(),
    decreases l.len(),
{
    if l.len() != 0 && r.len() != 0 {
        lemma_count_eq_bytes_le_len(l.drop_last(), r.drop_last());
    }
}

/// Two equal-length byte sequences agree at every position exactly when they
/// are equal; together with `lemma_count_eq_bytes_le_len` this bounds the
/// similarity index of any equal-size comparison between 0 and 1, with 1
/// reached exactly on a full match.
pub proof fn lemma_count_eq_bytes_full(l: Seq<u8>, r: Seq<u8>)
    requires
        l.len() == r.len(),
    ensures
        count_eq_bytes(l, r) == l.len() <==> l == r,
    decreases l.len(),
{
    if l.len() == 0 {
        assert(l =~= r);
    } else {
        lemma_count_eq_bytes_full(l.drop_last(), r.drop_last());
        lemma_count_eq_bytes_le_len(l.drop_last(), r.drop_last());
        if count_eq_bytes(l, r) == l.len() {
            assert(l.last() == r.last());
            assert(l.drop_last() == r.drop_last());
            assert forall|i: int| 0 <= i < l.len() implies l[i] == r[i] by {
                if i < l.len() - 1 {
                    assert(l.drop_last()[i] == r.drop_last()[i]);
                }
            }
            assert(l =~= r);
        }
        if l == r {
            assert(l.drop_last() =~= r.drop_last());
        }
    }
}

/// Comparing any byte sequence against itself matches everywhere.
pub proof fn lemma_count_eq_bytes_reflexive(s: Seq<u8>)
    ensures
        count_eq_bytes(s, s) == s.len(),
{
    lemma_count_eq_bytes_full(s, s);
}

/// The count over a concatenation of two equal-length chunk pairs is the sum
/// of the counts over the pairs.
pub proof fn lemma_count_eq_bytes_append(l1: Seq<u8>, r1: Seq<u8>, l2: Seq<u8>, r2: Seq<u8>)
    requires
        l1.len() == r1.len(),
        l2.len() == r2.len(),
    ensures
        count_eq_bytes(l1 + l2, r1 + r2) == count_eq_bytes(l1, r1) + count_eq_bytes(l2, r2),
    decreases l2.len(),
{
    if l2.len() == 0 {
        assert(l1 + l2 =~= l1);
        assert(r1 + r2 =~= r1);
    } else {
        lemma_count_eq_bytes_append(l1, r1, l2.drop_last(), r2.drop_last());
        assert((l1 + l2).drop_last() =~= l1 + l2.drop_last());
        assert((r1 + r2).drop_last() =~= r1 + r2.drop_last());
        assert((l1 + l2).last() == l2.last());
        assert((r1 + r2).last() == r2.last());
    }
}

/// Counts how many bytes match between two buffers. The buffers must be of
/// equal length.
pub fn diff_buffer(left: &[u8], right: &[u8]) -> (count: usize)
    requires
        left@.len() == right@.len(),
    ensures
        count == count_eq_bytes(left@, right@),
        count <= left@.len(),
{
    proof {
        lemma_count_eq_bytes_le_len(left@, right@);
    }
    let mut count: usize = 0;
    let mut i: usize = 0;
    while i < left.len()
        invariant
            left@.len() == right@.len(),
            i <= left@.len(),
            count == count_eq_bytes(left@.take(i as int), right@.take(i as int)),
            count <= i,
        decreases left@.len() - i,
    {
        proof {
            let lt = left@.take(i as int + 1);
            let rt = right@.take(i as int + 1);
            assert(lt.drop_last() =~= left@.take(i as int));
            assert(rt.drop_last() =~= right@.take(i as int));
            assert(lt.last() == left@[i as int]);
            assert(rt.last() == right@[i as int]);
        }
        if left[i] == right[i] {
            count = count + 1;
        }
        i = i + 1;
    }
    proof {
        assert(left@.take(left@.len() as int) =~= left@);
        assert(right@.take(right@.len() as int) =~= right@);
    }
    count
}

/// The value of a byte sequence read as a little-endian unsigned integer.
pub open spec fn le_val(s: Seq<u8>) -> nat
    decreases s.len(),
{
    if s.len() == 0 {
        0
    } else {
        (s[0] + 256 * le_val(s.drop_first())) as nat
    }
}

/// 256 to the power `n`.
pub open spec fn pow256(n: nat) -> nat
    decreases n,
{
    if n == 0 {
        1
    } else {
        256 * pow256((n - 1) as nat)
    }
}

/// `pow256` grows monotonically.
pub proof fn lemma_pow256_mono(m: nat, n: nat)
    requires
        m <= n,
    ensures
        pow256(m) <= pow256(n),
    decreases n,
{
    if m < n {
        lemma_pow256_mono(m, (n - 1) as nat);
    }
}

/// The `k`-th element of width `width` in a buffer, as its little-endian
/// value.
pub open spec fn elem_at(s: Seq<u8>, width: nat, k: nat) -> nat {
    le_val(s.subrange((k * width) as int, (k * width + width) as int))
}

/// The number of positions among the first `n` elements of width `width` at
/// which the two buffers decode to equal values.
pub open spec fn count_eq_elems(l: Seq<u8>, r: Seq<u8>, width: nat, n: nat) -> nat
    decreases n,
{
    if n == 0 {
        0
    } else {
        count_eq_elems(l, r, width, (n - 1) as nat) + if elem_at(l, width, (n - 1) as nat)
            == elem_at(r, width, (n - 1) as nat) {
            1nat
        } else {
            0nat
        }
    }
}

/// The count of agreeing elements never exceeds the number of elements.
pub proof fn lemma_count_eq_elems_le_n(l: Seq<u8>, r: Seq<u8>, width: nat, n: nat)
    ensures
        count_eq_elems(l, r, width, n) <= n,
    decreases n,
{
    if n != 0 {
        lemma_count_eq_elems_le_n(l, r, width, (n - 1) as nat);
    }
}

/// Comparing a buffer against itself matches at every element.
pub proof fn lemma_count_eq_elems_reflexive(s: Seq<u8>, width: nat, n: nat)
    ensures
        count_eq_elems(s, s, width, n) == n,
    decreases n,
{
    if n != 0 {
        lemma_count_eq_elems_reflexive(s, width, (n - 1) as nat);
    }
}

/// The element count depends only on the first `n * width` bytes of each
/// buffer.
pub proof fn lemma_count_eq_elems_prefix(
    l1: Seq<u8>,
    r1: Seq<u8>,
    l2: Seq<u8>,
    r2: Seq<u8>,
    width: nat,
    n: nat,
)
    requires
        width >= 1,
        n * width <= l1.len(),
        n * width <= r1.len(),
        l1.len() <= l2.len(),
        r1.len() <= r2.len(),
        l2.subrange(0, l1.len() as int) == l1,
        r2.subrange(0, r1.len() as int) == r1,
    ensures
        count_eq_elems(l1, r1, width, n) == count_eq_elems(l2, r2, width, n),
    decreases n,
{
    if n != 0 {
        assert(((n - 1) as nat) * width <= n * width) by (nonlinear_arith)
            requires n >= 1, width >= 1;
        lemma_count_eq_elems_prefix(l1, r1, l2, r2, width, (n - 1) as nat);
        let k = (n - 1) as nat;
        assert(k * width + width == n * width) by (nonlinear_arith)
            requires k == n - 1;
        assert(l1.subrange((k * width) as int, (k * width + width) as int) =~= l2.subrange(
            (k * width) as int,
            (k * width + width) as int,
        ));
        assert(r1.subrange((k * width) as int, (k * width + width) as int) =~= r2.subrange(
            (k * width) as int,
            (k * width + width) as int,
        ));
    }
}

/// Reads the little-endian value of the `width` bytes starting at `start`.
pub fn le_element(s: &[u8], start: usize, width: usize) -> (v: u64)
    requires
        1 <= width <= 8,
        start + width <= s@.len(),
    ensures
        v as nat == le_val(s@.subrange(start as int, (start + width) as int)),
{
    let mut acc: u64 = 0;
    let mut j: usize = width;
    while j > 0
        invariant
            1 <= width <= 8,
            start + width <= s@.len(),
            j <= width,
            acc as nat == le_val(s@.subrange((start + j) as int, (start + width) as int)),
            acc < pow256((width - j) as nat),
        decreases j,
    {
        j = j - 1;
        proof {
            assert(s.len() == s@.len());
            let t = s@.subrange((start + j) as int, (start + width) as int);
            assert(t.len() > 0);
            assert(t[0] == s@[(start + j) as int]);
            assert(t.drop_first() =~= s@.subrange((start + j + 1) as int, (start + width) as int));
            assert(pow256(((width - j) as nat)) == 256 * pow256((width - j - 1) as nat));
            lemma_pow256_mono((width - j - 1) as nat, 7);
            reveal_with_fuel(pow256, 9);
            assert(pow256(7) == 0x100_0000_0000_0000);
        }
        acc = acc * 256 + (s[start + j] as u64);
    }
    acc
}

fn count_matching_elements(left: &[u8], right: &[u8], width: usize) -> (count: usize)
    requires
        left@.len() == right@.len(),
        1 <= width <= 8,
    ensures
        count == count_eq_elems(left@, right@, width as nat, left@.len() / width as nat),
        count <= left@.len() / width as nat,
{
    let n: usize = left.len() / width;
    proof {
        lemma_count_eq_elems_le_n(left@, right@, width as nat, n as nat);
        assert(n * width <= left@.len()) by (nonlinear_arith)
            requires n == left@.len() as int / width as int, width >= 1, left@.len() >= 0;
    }
    let mut count: usize = 0;
    let mut k: usize = 0;
    while k < n
        invariant
            left@.len() == right@.len(),
            1 <= width <= 8,
            n == left@.len() as int / width as int,
            n * width <= left@.len(),
            k <= n,
            count == count_eq_elems(left@, right@, width as nat, k as nat),
            count <= k,
        decreases n - k,
    {
        proof {
            assert(left.len() == left@.len());
            assert(k * width + width <= n * width) by (nonlinear_arith)
                requires k + 1 <= n, width >= 1;
            assert(k * width + width <= left@.len());
        }
        let a = le_element(left, k * width, width);
        let b = le_element(right, k * width, width);
        if a == b {
            count = count + 1;
        }
        k = k + 1;
    }
    count
}

/// Counts matching 16-bit signed little-endian elements in two equal-length
/// buffers. Bytes past the last whole element are ignored.
pub fn diff_transmute_buffers_i16(left: &[u8], right: &[u8]) -> (count: usize)
    requires
        left@.len() == right@.len(),
    ensures
        count == count_eq_elems(left@, right@, 2, left@.len() / 2),
        count <= left@.len() / 2,
{
    count_matching_elements(left, right, 2)
}

/// Counts matching 16-bit unsigned little-endian elements in two equal-length
/// buffers. Bytes past the last whole element are ignored.
pub fn diff_transmute_buffers_u16(left: &[u8], right: &[u8]) -> (count: usize)
    requires
        left@.len() == right@.len(),
    ensures
        count == count_eq_elems(left@, right@, 2, left@.len() / 2),
        count <= left@.len() / 2,
{
    count_matching_elements(left, right, 2)
}

/// Counts matching 32-bit signed little-endian elements in two equal-length
/// buffers. Bytes past the last whole element are ignored.
pub fn diff_transmute_buffers_i32(left: &[u8], right: &[u8]) -> (count: usize)
    requires
        left@.len() == right@.len(),
    ensures
        count == count_eq_elems(left@, right@, 4, left@.len() / 4),
        count <= left@.len() / 4,
{
    count_matching_elements(left, right, 4)
}

/// Counts matching 32-bit unsigned little-endian elements in two equal-length
/// buffers. Bytes past the last whole element are ignored.
pub fn diff_transmute_buffers_u32(left: &[u8], right: &[u8]) -> (count: usize)
    requires
        left@.len() == right@.len(),
    ensures
        count == count_eq_elems(left@, right@, 4, left@.len() / 4),
        count <= left@.len() / 4,
{
    count_matching_elements(left, right, 4)
}

/// Counts matching 64-bit signed little-endian elements in two equal-length
/// buffers. Bytes past the last whole element are ignored.
pub fn diff_transmute_buffers_i64(left: &[u8], right: &[u8]) -> (count: usize)
    requires
        left@.len() == right@.len(),
    ensures
        count == count_eq_elems(left@, right@, 8, left@.len() / 8),
        count <= left@.len() / 8,
{
    count_matching_elements(left, right, 8)
}

/// Counts matching 64-bit unsigned little-endian elements in two equal-length
/// buffers. Bytes past the last whole element are ignored.
pub fn diff_transmute_buffers_u64(left: &[u8], right: &[u8]) -> (count: usize)
    requires
        left@.len() == right@.len(),
    ensures
        count == count_eq_elems(left@, right@, 8, left@.len() / 8),
        count <= left@.len() / 8,
{
    count_matching_elements(left, right, 8)
}

} // verus!
