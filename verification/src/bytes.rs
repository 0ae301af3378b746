//! Little- and big-endian integer decoding and encoding over byte sequences.

use vstd::prelude::*;

verus! {

/// The unsigned value of the two little-endian bytes of `s` at `o`.
pub open spec fn le16(s: Seq<u8>, o: int) -> int {
    s[o] + 0x100 * s[o + 1]
}

/// The unsigned value of the four little-endian bytes of `s` at `o`.
pub open spec fn le32(s: Seq<u8>, o: int) -> int {
    le16(s, o) + 0x1_0000 * le16(s, o + 2)
}

/// The unsigned value of the eight little-endian bytes of `s` at `o`.
pub open spec fn le64(s: Seq<u8>, o: int) -> int {
    le32(s, o) + 0x1_0000_0000 * le32(s, o + 4)
}

/// The unsigned value of the four big-endian bytes of `s` at `o`.
pub open spec fn be32(s: Seq<u8>, o: int) -> int {
    0x100_0000 * s[o] + 0x1_0000 * s[o + 1] + 0x100 * s[o + 2] + s[o + 3]
}

/// The `i`-th byte (least significant first) of `v`.
pub open spec fn byte_of(v: int, i: nat) -> u8 {
    ((v / pow256(i)) % 0x100) as u8
}

pub open spec fn pow256(i: nat) -> int
    decreases i,
{
    if i == 0 {
        1
    } else {
        0x100 * pow256((i - 1) as nat)
    }
}

/// The little-endian encoding of `v` in `n` bytes.
pub open spec fn le_bytes(v: int, n: nat) -> Seq<u8> {
    Seq::new(n, |i: int| byte_of(v, i as nat))
}

pub fn read_le16(bytes: &[u8], offset: usize) -> (r: u16)
    requires
        offset + 2 <= bytes.len(),
    ensures
        r == le16(bytes@, offset as int),
{
    bytes[offset] as u16 + 0x100 * (bytes[offset + 1] as u16)
}

pub fn read_le32(bytes: &[u8], offset: usize) -> (r: u32)
    requires
        offset + 4 <= bytes.len(),
    ensures
        r == le32(bytes@, offset as int),
{
    read_le16(bytes, offset) as u32 + 0x1_0000 * (read_le16(bytes, offset + 2) as u32)
}

pub fn read_le64(bytes: &[u8], offset: usize) -> (r: u64)
    requires
        offset + 8 <= bytes.len(),
    ensures
        r == le64(bytes@, offset as int),
{
    read_le32(bytes, offset) as u64 + 0x1_0000_0000 * (read_le32(bytes, offset + 4) as u64)
}

pub fn read_be32(bytes: &[u8], offset: usize) -> (r: u32)
    requires
        offset + 4 <= bytes.len(),
    ensures
        r == be32(bytes@, offset as int),
{
    0x100_0000 * (bytes[offset] as u32) + 0x1_0000 * (bytes[offset + 1] as u32) + 0x100 * (
    bytes[offset + 2] as u32) + bytes[offset + 3] as u32
}

/// Writing the little-endian bytes of a value and reading them back yields the value.
pub proof fn lemma_le16_of_bytes(v: u16)
    ensures
        le16(le_bytes(v as int, 2), 0) == v,
{
    reveal_with_fuel(pow256, 2);
    assert(v as int == v % 0x100 + 0x100 * ((v / 0x100) % 0x100)) by (nonlinear_arith)
        requires v <= 0xffff;
}

pub proof fn lemma_le32_of_bytes(v: u32)
    ensures
        le32(le_bytes(v as int, 4), 0) == v,
{
    reveal_with_fuel(pow256, 4);
    let q1 = v / 0x100;
    let q2 = q1 / 0x100;
    let q3 = q2 / 0x100;
    assert(v / 0x1_0000 == q2) by (nonlinear_arith) requires q1 == v / 0x100, q2 == q1 / 0x100;
    assert(v / 0x100_0000 == q3) by (nonlinear_arith)
        requires q1 == v / 0x100, q2 == q1 / 0x100, q3 == q2 / 0x100;
    assert(q3 < 0x100);
}

pub proof fn lemma_le64_of_bytes(v: u64)
    ensures
        le64(le_bytes(v as int, 8), 0) == v,
{
    reveal_with_fuel(pow256, 8);
    let q1 = v / 0x100;
    let q2 = q1 / 0x100;
    let q3 = q2 / 0x100;
    let q4 = q3 / 0x100;
    let q5 = q4 / 0x100;
    let q6 = q5 / 0x100;
    let q7 = q6 / 0x100;
    assert(v / 0x1_0000 == q2) by (nonlinear_arith) requires q1 == v / 0x100, q2 == q1 / 0x100;
    assert(v / 0x100_0000 == q3) by (nonlinear_arith)
        requires q1 == v / 0x100, q2 == q1 / 0x100, q3 == q2 / 0x100;
    assert(v / 0x1_0000_0000 == q4) by (nonlinear_arith)
        requires v / 0x100_0000 == q3, q4 == q3 / 0x100;
    assert(v / 0x100_0000_0000 == q5) by (nonlinear_arith)
        requires v / 0x1_0000_0000 == q4, q5 == q4 / 0x100;
    assert(v / 0x1_0000_0000_0000 == q6) by (nonlinear_arith)
        requires v / 0x100_0000_0000 == q5, q6 == q5 / 0x100;
    assert(v / 0x100_0000_0000_0000 == q7) by (nonlinear_arith)
        requires v / 0x1_0000_0000_0000 == q6, q7 == q6 / 0x100;
    assert(q7 < 0x100);
}

pub fn encode_u32_le(v: u32) -> (r: [u8; 4])
    ensures
        r@ == le_bytes(v as int, 4),
{
    let b0 = (v % 0x100) as u8;
    let v1 = v / 0x100;
    let b1 = (v1 % 0x100) as u8;
    let v2 = v1 / 0x100;
    let b2 = (v2 % 0x100) as u8;
    let v3 = v2 / 0x100;
    let b3 = (v3 % 0x100) as u8;
    let r = [b0, b1, b2, b3];
    proof {
        reveal_with_fuel(pow256, 4);
        assert(v / 0x1_0000 == v2) by (nonlinear_arith) requires v1 == v / 0x100, v2 == v1 / 0x100;
        assert(v / 0x100_0000 == v3) by (nonlinear_arith)
            requires v1 == v / 0x100, v2 == v1 / 0x100, v3 == v2 / 0x100;
        assert(r@ =~= le_bytes(v as int, 4));
    }
    r
}

pub fn encode_u16_le(v: u16) -> (r: [u8; 2])
    ensures
        r@ == le_bytes(v as int, 2),
{
    let r = [(v % 0x100) as u8, (v / 0x100) as u8];
    proof {
        reveal_with_fuel(pow256, 2);
        assert(r@ =~= le_bytes(v as int, 2));
    }
    r
}

pub fn encode_u64_le(v: u64) -> (r: [u8; 8])
    ensures
        r@ == le_bytes(v as int, 8),
{
    let lo = encode_u32_le((v % 0x1_0000_0000) as u32);
    let hi = encode_u32_le((v / 0x1_0000_0000) as u32);
    let r = [lo[0], lo[1], lo[2], lo[3], hi[0], hi[1], hi[2], hi[3]];
    proof {
        reveal_with_fuel(pow256, 8);
        let l = v % 0x1_0000_0000;
        let h = v / 0x1_0000_0000;
        assert forall|i: nat| i < 4 implies byte_of(l as int, i) == byte_of(v as int, i) by {
            lemma_byte_of_low(v as int, i);
        }
        assert forall|i: nat| i < 4 implies byte_of(h as int, i) == byte_of(v as int, i + 4) by {
            lemma_byte_of_high(v as int, i);
        }
        assert(r@ =~= le_bytes(v as int, 8)) by {
            assert(r@[0] == byte_of(v as int, 0));
            assert(r@[1] == byte_of(v as int, 1));
            assert(r@[2] == byte_of(v as int, 2));
            assert(r@[3] == byte_of(v as int, 3));
            assert(r@[4] == byte_of(v as int, 4));
            assert(r@[5] == byte_of(v as int, 5));
            assert(r@[6] == byte_of(v as int, 6));
            assert(r@[7] == byte_of(v as int, 7));
        }
    }
    r
}

proof fn lemma_pow256_positive(i: nat)
    ensures
        pow256(i) > 0,
    decreases i,
{
    if i > 0 {
        lemma_pow256_positive((i - 1) as nat);
    }
}

proof fn lemma_byte_of_low(v: int, i: nat)
    requires
        0 <= v,
        i < 4,
    ensures
        byte_of(v % 0x1_0000_0000, i) == byte_of(v, i),
{
    reveal_with_fuel(pow256, 4);
    let p = pow256(i);
    assert(p == 1 || p == 0x100 || p == 0x1_0000 || p == 0x100_0000);
    assert(((v % 0x1_0000_0000) / p) % 0x100 == (v / p) % 0x100) by (nonlinear_arith)
        requires p == 1 || p == 0x100 || p == 0x1_0000 || p == 0x100_0000, 0 <= v;
}

proof fn lemma_byte_of_high(v: int, i: nat)
    requires
        0 <= v,
        i < 4,
    ensures
        byte_of(v / 0x1_0000_0000, i) == byte_of(v, i + 4),
{
    reveal_with_fuel(pow256, 8);
    let p = pow256(i);
    assert(pow256(i + 4) == 0x1_0000_0000 * p);
    assert((v / 0x1_0000_0000) / p == v / (0x1_0000_0000 * p)) by (nonlinear_arith)
        requires p == 1 || p == 0x100 || p == 0x1_0000 || p == 0x100_0000, 0 <= v;
}

/// Reading four little-endian bytes and writing the value back gives the
/// same bytes.
pub proof fn lemma_le_bytes_of_le32(t: Seq<u8>)
    requires
        t.len() == 4,
    ensures
        le_bytes(le32(t, 0), 4) == t,
{
    reveal_with_fuel(pow256, 4);
    let v = le32(t, 0);
    let (b0, b1, b2, b3) = (t[0] as int, t[1] as int, t[2] as int, t[3] as int);
    assert(v == b0 + 0x100 * b1 + 0x1_0000 * b2 + 0x100_0000 * b3);
    assert(v % 0x100 == b0 && (v / 0x100) % 0x100 == b1 && (v / 0x1_0000) % 0x100 == b2 && (v
        / 0x100_0000) % 0x100 == b3) by (nonlinear_arith)
        requires
            v == b0 + 0x100 * b1 + 0x1_0000 * b2 + 0x100_0000 * b3,
            0 <= b0 < 0x100,
            0 <= b1 < 0x100,
            0 <= b2 < 0x100,
            0 <= b3 < 0x100,
    ;
    assert(le_bytes(v, 4) =~= t);
}

/// `le64` only reads the eight bytes at its offset.
pub proof fn lemma_le64_window(s: Seq<u8>, o: int, t: Seq<u8>)
    requires
        0 <= o,
        o + 8 <= s.len(),
        t.len() == 8,
        forall|j: int| 0 <= j < 8 ==> s[o + j] == t[j],
    ensures
        le64(s, o) == le64(t, 0),
{
    assert(s[o] == t[0]);
    assert(s[o + 1] == t[1]);
    assert(s[o + 2] == t[2]);
    assert(s[o + 3] == t[3]);
    assert(s[o + 4] == t[4]);
    assert(s[o + 5] == t[5]);
    assert(s[o + 6] == t[6]);
    assert(s[o + 7] == t[7]);
}

/// The little-endian bytes of zero are all zero.
pub proof fn lemma_le_bytes_zero(n: nat)
    ensures
        le_bytes(0, n) == Seq::new(n, |i: int| 0u8),
{
    assert forall|i: int| 0 <= i < n implies #[trigger] byte_of(0, i as nat) == 0u8 by {
        lemma_pow256_positive(i as nat);
    }
    assert(le_bytes(0, n) =~= Seq::new(n, |i: int| 0u8));
}

pub proof fn reveal_le_bytes_zero16()
    ensures
        le_bytes(0, 2) == seq![0u8, 0u8],
        le_bytes(1, 2) == seq![1u8, 0u8],
        le_bytes(96, 2) == seq![96u8, 0u8],
{
    reveal_with_fuel(pow256, 2);
    assert(le_bytes(0, 2) =~= seq![0u8, 0u8]);
    assert(le_bytes(1, 2) =~= seq![1u8, 0u8]);
    assert(byte_of(96, 1) == 0) by {
        assert(96int / 0x100 == 0);
    }
    assert(le_bytes(96, 2) =~= seq![96u8, 0u8]);
}

/// The index of the first `byte` in `s` at or after `from`, or the length of `s`.
pub open spec fn first_index(s: Seq<u8>, from: int, byte: u8) -> int
    decreases s.len() - from,
{
    if from < 0 || from >= s.len() {
        s.len() as int
    } else if s[from] == byte {
        from
    } else {
        first_index(s, from + 1, byte)
    }
}

pub proof fn lemma_first_index(s: Seq<u8>, from: int, byte: u8)
    requires
        0 <= from <= s.len(),
    ensures
        from <= first_index(s, from, byte) <= s.len(),
        first_index(s, from, byte) < s.len() ==> s[first_index(s, from, byte)] == byte,
        forall|k: int| from <= k < first_index(s, from, byte) ==> s[k] != byte,
    decreases s.len() - from,
{
    if from < s.len() && s[from] != byte {
        lemma_first_index(s, from + 1, byte);
    }
}

/// `j` is the first `byte` at or after `from` when none lies before it and
/// `j` holds one or is the end.
pub proof fn lemma_first_index_at(s: Seq<u8>, from: int, byte: u8, j: int)
    requires
        0 <= from <= j <= s.len(),
        forall|k: int| from <= k < j ==> s[k] != byte,
        j == s.len() || s[j] == byte,
    ensures
        first_index(s, from, byte) == j,
    decreases j - from,
{
    if from < j {
        lemma_first_index_at(s, from + 1, byte, j);
    }
}

/// The first `byte` in `s` at or after `from`, or the length of `s`.
pub fn find_byte(s: &[u8], from: usize, byte: u8) -> (r: usize)
    requires
        from <= s@.len(),
    ensures
        r == first_index(s@, from as int, byte),
{
    let mut j = from;
    while j < s.len() && s[j] != byte
        invariant
            from <= j <= s@.len(),
            first_index(s@, from as int, byte) == first_index(s@, j as int, byte),
        decreases s@.len() - j,
    {
        j = j + 1;
    }
    j
}

/// `a[start..end]` equals `b`.
pub fn range_eq(a: &[u8], start: usize, end: usize, b: &[u8]) -> (r: bool)
    requires
        start <= end <= a@.len(),
    ensures
        r == (a@.subrange(start as int, end as int) == b@),
{
    if end - start != b.len() {
        return false;
    }
    let mut k: usize = 0;
    while k < b.len()
        invariant
            start <= end <= a@.len(),
            end - start == b@.len(),
            k <= b@.len(),
            forall|j: int| 0 <= j < k ==> a@[start + j] == b@[j],
        decreases b@.len() - k,
    {
        if a[start + k] != b[k] {
            assert(a@.subrange(start as int, end as int)[k as int] != b@[k as int]);
            return false;
        }
        k = k + 1;
    }
    assert(a@.subrange(start as int, end as int) =~= b@);
    true
}

/// `s` starts with `prefix`.
pub open spec fn has_prefix(s: Seq<u8>, prefix: Seq<u8>) -> bool {
    prefix.len() <= s.len() && s.subrange(0, prefix.len() as int) == prefix
}

/// `a[start..end]` starts with `prefix`.
pub fn range_has_prefix(a: &[u8], start: usize, end: usize, prefix: &[u8]) -> (r: bool)
    requires
        start <= end <= a@.len(),
    ensures
        r == has_prefix(a@.subrange(start as int, end as int), prefix@),
{
    if end - start < prefix.len() {
        return false;
    }
    let r = range_eq(a, start, start + prefix.len(), prefix);
    assert(a@.subrange(start as int, end as int).subrange(0, prefix@.len() as int) =~= a@.subrange(
        start as int,
        start + prefix@.len(),
    ));
    r
}

} // verus!
