//! Little-endian integer encodings and the Bitcoin variable-length integer.

use vstd::prelude::*;

verus! {

/// The `n` low-order bytes of `v`, least significant first.  For a negative
/// `v` this is the two's-complement truncation, as Euclidean `/` and `%` give.
pub open spec fn le_bytes(v: int, n: nat) -> Seq<u8>
    decreases n,
{
    if n == 0 {
        Seq::empty()
    } else {
        seq![(v % 256) as u8] + le_bytes(v / 256, (n - 1) as nat)
    }
}

/// The unsigned value of a little-endian byte string.
pub open spec fn le_value(s: Seq<u8>) -> nat
    decreases s.len(),
{
    if s.len() == 0 {
        0
    } else {
        (s[0] + 256 * le_value(s.subrange(1, s.len() as int))) as nat
    }
}

/// `256` to the power `n`.
pub open spec fn pow256(n: nat) -> nat
    decreases n,
{
    if n == 0 {
        1
    } else {
        256 * pow256((n - 1) as nat)
    }
}

/// The Bitcoin compact-size encoding of `v`.
pub open spec fn varint_bytes(v: u64) -> Seq<u8> {
    if v < 0xfd {
        seq![v as u8]
    } else if v <= 0xffff {
        seq![0xfdu8] + le_bytes(v as int, 2)
    } else if v <= 0xffff_ffff {
        seq![0xfeu8] + le_bytes(v as int, 4)
    } else {
        seq![0xffu8] + le_bytes(v as int, 8)
    }
}

/// What reading a compact-size integer at the start of `data` gives:
/// the value and the number of bytes it took, or `(0, 0)` where the data
/// is too short for the form its first byte announces.
pub open spec fn varint_read(data: Seq<u8>) -> (u64, nat) {
    if data.len() == 0 {
        (0, 0)
    } else if data[0] < 0xfd {
        (data[0] as u64, 1)
    } else if data[0] == 0xfd {
        if data.len() < 3 { (0, 0) } else { (le_value(data.subrange(1, 3)) as u64, 3) }
    } else if data[0] == 0xfe {
        if data.len() < 5 { (0, 0) } else { (le_value(data.subrange(1, 5)) as u64, 5) }
    } else {
        if data.len() < 9 { (0, 0) } else { (le_value(data.subrange(1, 9)) as u64, 9) }
    }
}

pub proof fn lemma_le_bytes_len(v: int, n: nat)
    ensures
        le_bytes(v, n).len() == n,
    decreases n,
{
    if n > 0 {
        lemma_le_bytes_len(v / 256, (n - 1) as nat);
    }
}

pub proof fn lemma_pow256_pos(n: nat)
    ensures
        pow256(n) >= 1,
    decreases n,
{
    if n > 0 {
        lemma_pow256_pos((n - 1) as nat);
    }
}

/// Reading back `n` little-endian bytes of a value below `256^n` gives the value.
pub proof fn lemma_le_value_of_le_bytes(v: nat, n: nat)
    requires
        v < pow256(n),
    ensures
        le_value(le_bytes(v as int, n)) == v,
    decreases n,
{
    lemma_le_bytes_len(v as int, n);
    if n > 0 {
        let q = v / 256;
        let r = v % 256;
        assert(v == 256 * q + r);
        assert(q < pow256((n - 1) as nat)) by (nonlinear_arith)
            requires
                v < 256 * pow256((n - 1) as nat),
                v == 256 * q + r,
                0 <= r < 256,
                q >= 0,
        ;
        lemma_le_value_of_le_bytes(q as nat, (n - 1) as nat);
        let s = le_bytes(v as int, n);
        assert(s.subrange(1, s.len() as int) =~= le_bytes(q as int, (n - 1) as nat));
    }
}

/// Reading back the `n` little-endian bytes of any non-negative `v` gives
/// `v` modulo `256^n`: the low-order bytes, least significant first.
pub proof fn lemma_le_value_of_le_bytes_mod(v: int, n: nat)
    requires
        v >= 0,
    ensures
        le_value(le_bytes(v, n)) == v % (pow256(n) as int),
    decreases n,
{
    lemma_le_bytes_len(v, n);
    if n == 0 {
        assert(v % 1 == 0);
    } else {
        let q = v / 256;
        lemma_le_value_of_le_bytes_mod(q, (n - 1) as nat);
        let s = le_bytes(v, n);
        assert(s.subrange(1, s.len() as int) =~= le_bytes(q, (n - 1) as nat));
        lemma_pow256_pos((n - 1) as nat);
        vstd::arithmetic::div_mod::lemma_breakdown(v, 256, pow256((n - 1) as nat) as int);
        assert(pow256(n) == 256 * pow256((n - 1) as nat));
    }
}

/// A little-endian value of `n` bytes is below `256^n`.
pub proof fn lemma_le_value_bound(s: Seq<u8>)
    ensures
        le_value(s) < pow256(s.len()),
    decreases s.len(),
{
    if s.len() > 0 {
        let t = s.subrange(1, s.len() as int);
        lemma_le_value_bound(t);
        let p = pow256(t.len());
        assert(s[0] + 256 * le_value(t) < 256 * p) by (nonlinear_arith)
            requires
                le_value(t) < p,
                0 <= s[0] < 256,
        ;
    }
}

/// A compact-size integer read back gives its value and its length,
/// whatever follows it.
pub proof fn lemma_varint_roundtrip(v: u64, rest: Seq<u8>)
    ensures
        varint_read(varint_bytes(v) + rest) == (v, varint_bytes(v).len()),
{
    let d = varint_bytes(v) + rest;
    assert(pow256(2) == 0x10000 && pow256(4) == 0x1_0000_0000 && pow256(8)
        == 0x1_0000_0000_0000_0000) by {
        reveal_with_fuel(pow256, 9);
    }
    if v < 0xfd {
        assert(d[0] == v as u8);
    } else if v <= 0xffff {
        lemma_le_bytes_len(v as int, 2);
        assert(d.subrange(1, 3) =~= le_bytes(v as int, 2));
        lemma_le_value_of_le_bytes(v as nat, 2);
    } else if v <= 0xffff_ffff {
        lemma_le_bytes_len(v as int, 4);
        assert(d.subrange(1, 5) =~= le_bytes(v as int, 4));
        lemma_le_value_of_le_bytes(v as nat, 4);
    } else {
        lemma_le_bytes_len(v as int, 8);
        assert(d.subrange(1, 9) =~= le_bytes(v as int, 8));
        lemma_le_value_of_le_bytes(v as nat, 8);
    }
}

/// A compact-size read never takes more bytes than there are.
pub proof fn lemma_varint_read_len(data: Seq<u8>)
    ensures
        varint_read(data).1 <= data.len(),
{
}

/// Appends the `n` low-order bytes of `v`, least significant first.
pub fn push_le_bytes(out: &mut Vec<u8>, v: u64, n: usize)
    requires
        n <= 8,
    ensures
        final(out)@ == old(out)@ + le_bytes(v as int, n as nat),
{
    let mut rest: u64 = v;
    let mut i: usize = 0;
    let ghost start = old(out)@;
    while i < n
        invariant
            i <= n,
            start + le_bytes(v as int, n as nat) == out@ + le_bytes(rest as int, (n - i) as nat),
        decreases n - i,
    {
        let b: u8 = (rest % 256) as u8;
        proof {
            let k = (n - i) as nat;
            assert(le_bytes(rest as int, k) =~= seq![b] + le_bytes((rest / 256) as int, (k - 1) as nat));
            assert(out@.push(b) + le_bytes((rest / 256) as int, (k - 1) as nat)
                =~= out@ + le_bytes(rest as int, k));
        }
        out.push(b);
        rest = rest / 256;
        i = i + 1;
    }
    assert(le_bytes(rest as int, 0) =~= Seq::<u8>::empty());
    assert(out@ + Seq::<u8>::empty() =~= out@);
}

/// Appends every byte of `src`.
pub fn push_all(out: &mut Vec<u8>, src: &[u8])
    ensures
        final(out)@ == old(out)@ + src@,
{
    let ghost start = old(out)@;
    let mut i: usize = 0;
    while i < src.len()
        invariant
            i <= src@.len(),
            out@ == start + src@.subrange(0, i as int),
        decreases src@.len() - i,
    {
        out.push(src[i]);
        i = i + 1;
        assert(out@ =~= start + src@.subrange(0, i as int));
    }
    assert(src@.subrange(0, src@.len() as int) =~= src@);
}

/// The little-endian value of `data[start .. start + n]`.
pub fn le_decode(data: &[u8], start: usize, n: usize) -> (v: u64)
    requires
        n <= 8,
        start + n <= data@.len(),
    ensures
        v == le_value(data@.subrange(start as int, start + n)),
{
    let mut acc: u64 = 0;
    let mut i: usize = n;
    let len = data.len();
    while i > 0
        invariant
            len == data@.len(),
            i <= n,
            n <= 8,
            start + n <= data@.len(),
            acc == le_value(data@.subrange(start + i, start + n)),
        decreases i,
    {
        i = i - 1;
        let ghost tail = data@.subrange(start + i + 1, start + n);
        let ghost whole = data@.subrange(start + i, start + n);
        proof {
            assert(whole.subrange(1, whole.len() as int) =~= tail);
            lemma_le_value_bound(whole);
            lemma_pow256_le_8((n - i) as nat);
        }
        acc = data[start + i] as u64 + 256 * acc;
    }
    acc
}

proof fn lemma_pow256_le_8(k: nat)
    requires
        k <= 8,
    ensures
        pow256(k) <= 0x1_0000_0000_0000_0000,
{
    reveal_with_fuel(pow256, 9);
}

} // verus!
