//! Byte order: integers as little-endian and big-endian byte sequences.

use vstd::prelude::*;

verus! {

/// The `n` low-order bytes of `v`, least significant first.
pub open spec fn le_bytes(v: nat, n: nat) -> Seq<u8>
    decreases n,
{
    if n == 0 {
        Seq::empty()
    } else {
        seq![(v % 256) as u8] + le_bytes(v / 256, (n - 1) as nat)
    }
}

/// The number whose base-256 digits are `s`, least significant first.
pub open spec fn le_value(s: Seq<u8>) -> nat
    decreases s.len(),
{
    if s.len() == 0 {
        0
    } else {
        s[0] as nat + 256 * le_value(s.drop_first())
    }
}

/// 256 to the power `n`.
pub open spec fn pow256(n: nat) -> nat
    decreases n,
{
    if n == 0 {
        1
    } else {
        256 * pow256((n - 1) as nat)
    }
}

/// `le_bytes` gives the number of digits that it was asked for.
pub broadcast proof fn lemma_le_bytes_len(v: nat, n: nat)
    ensures
        #[trigger] le_bytes(v, n).len() == n,
    decreases n,
{
    if n > 0 {
        lemma_le_bytes_len(v / 256, (n - 1) as nat);
    }
}

/// A number that fits in `n` bytes is read back from its bytes.
pub proof fn lemma_le_value_of_bytes(v: nat, n: nat)
    requires
        v < pow256(n),
    ensures
        le_value(le_bytes(v, n)) == v,
    decreases n,
{
    if n > 0 {
        assert(v / 256 < pow256((n - 1) as nat));
        lemma_le_value_of_bytes(v / 256, (n - 1) as nat);
        assert(le_bytes(v, n).drop_first() =~= le_bytes(v / 256, (n - 1) as nat));
    }
}

/// Bytes are the digits of the number that they spell, and that number fits in their count.
pub proof fn lemma_le_bytes_of_value(s: Seq<u8>)
    ensures
        le_bytes(le_value(s), s.len()) == s,
        le_value(s) < pow256(s.len()),
    decreases s.len(),
{
    if s.len() > 0 {
        let rest = s.drop_first();
        lemma_le_bytes_of_value(rest);
        assert(le_value(s) % 256 == s[0]);
        assert(le_value(s) / 256 == le_value(rest));
        assert(seq![s[0]] + rest =~= s);
    }
}

/// The widths in use: how many values two, four and eight bytes hold.
pub proof fn lemma_pow256_widths()
    ensures
        pow256(2) == 0x1_0000,
        pow256(4) == 0x1_0000_0000,
        pow256(8) == 0x1_0000_0000_0000_0000,
{
    reveal_with_fuel(pow256, 9);
}

/// The number whose base-256 digits are the four bytes of `s`, most significant first.
pub open spec fn be32_value(s: Seq<u8>) -> nat {
    (s[0] * 0x100_0000 + s[1] * 0x1_0000 + s[2] * 0x100 + s[3]) as nat
}

/// The four bytes of `v`, most significant first.
pub open spec fn be32_bytes(v: nat) -> Seq<u8> {
    seq![
        (v / 0x100_0000 % 256) as u8,
        (v / 0x1_0000 % 256) as u8,
        (v / 0x100 % 256) as u8,
        (v % 256) as u8,
    ]
}

/// A number below 2^32 is read back from its four big-endian bytes.
pub proof fn lemma_be32_round_trip(v: nat)
    requires
        v <= u32::MAX,
    ensures
        be32_value(be32_bytes(v)) == v,
{
    let a = v / 0x100_0000;
    let b = v / 0x1_0000;
    let c = v / 0x100;
    assert(a == b / 256 && b == c / 256);
    assert(a < 256);
}

/// The four bytes of `v`, most significant first.
pub fn u32_to_be(v: u32) -> (r: [u8; 4])
    ensures
        r@ == be32_bytes(v as nat),
{
    [
        (v / 0x100_0000 % 256) as u8,
        (v / 0x1_0000 % 256) as u8,
        (v / 0x100 % 256) as u8,
        (v % 256) as u8,
    ]
}

/// The number that four bytes spell, most significant first.
pub fn u32_from_be(b: &[u8; 4]) -> (r: u32)
    ensures
        r == be32_value(b@),
{
    b[0] as u32 * 0x100_0000 + b[1] as u32 * 0x1_0000 + b[2] as u32 * 0x100 + b[3] as u32
}

/// Appends a copy of `src` to `dst`.
pub fn append_bytes(dst: &mut Vec<u8>, src: &[u8])
    ensures
        final(dst)@ == old(dst)@ + src@,
{
    dst.extend_from_slice(src);
    assert(dst@ =~= old(dst)@ + src@);
}

/// A copy of the bytes of `src` from `from` up to `to`.
pub fn copy_range(src: &[u8], from: usize, to: usize) -> (r: Vec<u8>)
    requires
        from <= to <= src@.len(),
    ensures
        r@ == src@.subrange(from as int, to as int),
{
    vstd::slice::slice_to_vec(vstd::slice::slice_subrange(src, from, to))
}

/// The 32 bytes of `src` that start at `from`, as an array.
pub fn copy_32(src: &[u8], from: usize) -> (r: [u8; 32])
    requires
        from + 32 <= src@.len(),
    ensures
        r@ == src@.subrange(from as int, from + 32),
{
    let mut out: [u8; 32] = [0u8; 32];
    let mut i: usize = 0;
    while i < 32
        invariant
            i <= 32,
            from + 32 <= src.len(),
            forall|j: int| 0 <= j < i ==> out@[j] == src@[from + j],
        decreases 32 - i,
    {
        out[i] = src[from + i];
        i = i + 1;
    }
    assert(out@ =~= src@.subrange(from as int, from + 32));
    out
}

/// Whether two 32-byte values are the same.
pub fn same_32(a: &[u8; 32], b: &[u8; 32]) -> (r: bool)
    ensures
        r == (a@ == b@),
{
    let mut i: usize = 0;
    while i < 32
        invariant
            i <= 32,
            forall|j: int| 0 <= j < i ==> a@[j] == b@[j],
        decreases 32 - i,
    {
        if a[i] != b[i] {
            return false;
        }
        i = i + 1;
    }
    assert(a@ =~= b@);
    true
}

/// Each byte is a digit of the number to the base 256, the least significant first.
pub proof fn bytes_are_digits(v: nat, n: nat, i: nat)
    requires
        i < n,
    ensures
        le_bytes(v, n).len() == n,
        le_bytes(v, n)[i as int] == (v / pow256(i)) % 256,
        pow256(0) == 1,
        pow256(i + 1) == 256 * pow256(i),
    decreases n,
{
    lemma_le_bytes_len(v, n);
    if i > 0 {
        let j = (i - 1) as nat;
        bytes_are_digits(v / 256, (n - 1) as nat, j);
        lemma_pow256_positive(j);
        vstd::arithmetic::div_mod::lemma_div_denominator(v as int, 256, pow256(j) as int);
        assert(le_bytes(v, n)[i as int] == le_bytes(v / 256, (n - 1) as nat)[j as int]);
        assert(v / pow256(i) == (v / 256) / pow256(j));
    } else {
        vstd::arithmetic::div_mod::lemma_div_basics(v as int);
        assert(v / pow256(i) == v);
    }
}

/// A power of 256 is positive.
proof fn lemma_pow256_positive(n: nat)
    ensures
        pow256(n) > 0,
    decreases n,
{
    if n > 0 {
        lemma_pow256_positive((n - 1) as nat);
    }
}

/// Two, four and eight bytes spell a number with the least significant first; and the four bytes of a
/// length, with the most significant first, spell what they would spell the other way round.
pub proof fn byte_orders_mirror(s: Seq<u8>)
    requires
        s.len() == 4,
    ensures
        le_value(s) == s[0] + 0x100 * s[1] + 0x1_0000 * s[2] + 0x100_0000 * s[3],
        be32_value(s) == le_value(s.reverse()),
        be32_value(s) == 0x100_0000 * s[0] + 0x1_0000 * s[1] + 0x100 * s[2] + s[3],
{
    reveal_with_fuel(le_value, 5);
    let t = s.reverse();
    assert(t[0] == s[3] && t[1] == s[2] && t[2] == s[1] && t[3] == s[0]);
    assert(t.drop_first().drop_first().drop_first().drop_first().len() == 0);
    assert(s.drop_first().drop_first().drop_first().drop_first().len() == 0);
}

} // verus!
