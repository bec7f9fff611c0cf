//! SHA-256 hashing and the ordering of 32-byte hashes as big-endian numbers.

use sha2::{Digest, Sha256};
use vstd::prelude::*;

use crate::encoding::pow256;

verus! {

/// A 32-byte hash, a target, or a block id.
pub type Hash256 = [u8; 32];

/// The SHA-256 digest of `data`.
pub uninterp spec fn sha256(data: Seq<u8>) -> Seq<u8>;

/// Bitcoin's double SHA-256.
pub open spec fn sha256d(data: Seq<u8>) -> Seq<u8> {
    sha256(sha256(data))
}

/// `sha2::Sha256::digest`: the 32-byte SHA-256 digest of `data`, named
/// `sha256`.  Nothing else is claimed of the hash function.
#[verifier::external_body]
fn sha256_digest(data: &[u8]) -> (res: Hash256)
    ensures
        res@ == sha256(data@),
{
    Sha256::digest(data).into()
}

/// Double SHA-256 of `data`.
pub fn double_sha256(data: &[u8]) -> (res: Hash256)
    ensures
        res@ == sha256d(data@),
{
    let first = sha256_digest(data);
    sha256_digest(first.as_slice())
}

/// The unsigned value of a byte string read as a big-endian number.
pub open spec fn be_value(s: Seq<u8>) -> nat
    decreases s.len(),
{
    if s.len() == 0 {
        0
    } else {
        (s[0] as nat) * pow256((s.len() - 1) as nat) + be_value(s.subrange(1, s.len() as int))
    }
}

/// The number a block hash stands for: its bytes read little-endian, the
/// way Bitcoin compares a hash with a target.
pub open spec fn hash_number(h: Seq<u8>) -> nat {
    be_value(h.reverse())
}

/// Lexicographic order of two byte strings of the same length.
pub open spec fn lex_le(a: Seq<u8>, b: Seq<u8>) -> bool
    decreases a.len(),
{
    if a.len() == 0 || b.len() == 0 {
        true
    } else if a[0] < b[0] {
        true
    } else if a[0] > b[0] {
        false
    } else {
        lex_le(a.subrange(1, a.len() as int), b.subrange(1, b.len() as int))
    }
}

pub proof fn lemma_be_value_bound(s: Seq<u8>)
    ensures
        be_value(s) < pow256(s.len()),
    decreases s.len(),
{
    if s.len() > 0 {
        let t = s.subrange(1, s.len() as int);
        lemma_be_value_bound(t);
        let p = pow256(t.len());
        assert(s[0] * p + be_value(t) < 256 * p) by (nonlinear_arith)
            requires
                be_value(t) < p,
                0 <= s[0] < 256,
        ;
    }
}

/// For byte strings of one length, the lexicographic order is the order of
/// their big-endian values.
pub proof fn lemma_lex_le_is_numeric(a: Seq<u8>, b: Seq<u8>)
    requires
        a.len() == b.len(),
    ensures
        lex_le(a, b) <==> be_value(a) <= be_value(b),
    decreases a.len(),
{
    if a.len() > 0 {
        let ta = a.subrange(1, a.len() as int);
        let tb = b.subrange(1, b.len() as int);
        let p = pow256(ta.len());
        lemma_be_value_bound(ta);
        lemma_be_value_bound(tb);
        lemma_lex_le_is_numeric(ta, tb);
        let (a0, b0) = (a[0] as int, b[0] as int);
        let (ra, rb) = (be_value(ta) as int, be_value(tb) as int);
        if a0 < b0 {
            assert(a0 * p + ra < b0 * p + rb) by (nonlinear_arith)
                requires a0 < b0, 0 <= ra < p, 0 <= rb, p >= 1;
        } else if a0 > b0 {
            assert(a0 * p + ra > b0 * p + rb) by (nonlinear_arith)
                requires a0 > b0, 0 <= rb < p, 0 <= ra, p >= 1;
        }
    }
}

/// The `n` low-order bytes of `v`, most significant first.
pub open spec fn be_bytes(v: int, n: nat) -> Seq<u8>
    decreases n,
{
    if n == 0 {
        Seq::empty()
    } else {
        be_bytes(v / 256, (n - 1) as nat).push((v % 256) as u8)
    }
}

/// `n` zero bytes.
pub open spec fn zero_bytes(n: nat) -> Seq<u8> {
    Seq::new(n, |i: int| 0u8)
}

pub proof fn lemma_pow256_add(m: nat, n: nat)
    ensures
        pow256(m + n) == pow256(m) * pow256(n),
    decreases m,
{
    if m > 0 {
        let m1 = (m - 1) as nat;
        lemma_pow256_add(m1, n);
        assert(pow256(m + n) == 256 * pow256((m + n - 1) as nat));
        assert((m + n - 1) as nat == m1 + n);
        assert(pow256(m) == 256 * pow256(m1));
        let x = pow256(m1) as int;
        let y = pow256(n) as int;
        assert(256 * (x * y) == (256 * x) * y) by (nonlinear_arith);
    } else {
        let y = pow256(n) as int;
        assert(pow256(m) == 1);
        assert(1 * y == y);
    }
}

/// The big-endian value of a concatenation.
#[verifier::spinoff_prover]
pub proof fn lemma_be_value_concat(a: Seq<u8>, b: Seq<u8>)
    ensures
        be_value(a + b) == be_value(a) * pow256(b.len()) + be_value(b),
    decreases a.len(),
{
    if a.len() == 0 {
        assert(a + b =~= b);
        assert(be_value(a) == 0);
        assert(0 * pow256(b.len()) == 0);
    } else {
        let ta = a.subrange(1, a.len() as int);
        lemma_be_value_concat(ta, b);
        let ab = a + b;
        assert(ab.subrange(1, ab.len() as int) =~= ta + b);
        assert(ab[0] == a[0]);
        assert(((ab.len() - 1) as nat) == ((a.len() - 1) as nat) + b.len());
        lemma_pow256_add((a.len() - 1) as nat, b.len());
        assert(be_value(ab) == (ab[0] as nat) * pow256((ab.len() - 1) as nat) + be_value(
            ab.subrange(1, ab.len() as int),
        ));
        assert(be_value(a) == (a[0] as nat) * pow256((a.len() - 1) as nat) + be_value(ta));
        let p = pow256((a.len() - 1) as nat);
        let q = pow256(b.len());
        let a0 = a[0] as int;
        let rt = be_value(ta) as int;
        assert(a0 * (p * q) + (rt * q + be_value(b)) == (a0 * p + rt) * q + be_value(b))
            by (nonlinear_arith);
        assert(be_value(ab) == a0 * (p * q) + (rt * q + be_value(b)));
    }
}

pub proof fn lemma_be_value_zero_bytes(n: nat)
    ensures
        be_value(zero_bytes(n)) == 0,
    decreases n,
{
    if n > 0 {
        assert(zero_bytes(n).subrange(1, n as int) =~= zero_bytes((n - 1) as nat));
        lemma_be_value_zero_bytes((n - 1) as nat);
    }
}

pub proof fn lemma_be_value_single(x: u8)
    ensures
        be_value(seq![x]) == x,
{
    let one = seq![x];
    assert(one.subrange(1, 1) =~= Seq::<u8>::empty());
    assert(pow256(0) == 1);
    assert(be_value(Seq::<u8>::empty()) == 0);
    assert(be_value(one) == (one[0] as nat) * pow256(0) + be_value(one.subrange(1, 1)));
    assert((x as nat) * pow256(0) == x) by (nonlinear_arith)
        requires pow256(0) == 1;
}

/// `n` big-endian bytes of a value below `256^n` read back as that value.
pub proof fn lemma_be_value_of_be_bytes(v: nat, n: nat)
    requires
        v < pow256(n),
    ensures
        be_value(be_bytes(v as int, n)) == v,
        be_bytes(v as int, n).len() == n,
    decreases n,
{
    if n > 0 {
        let q = v / 256;
        let r = v % 256;
        assert(q < pow256((n - 1) as nat)) by (nonlinear_arith)
            requires
                v < 256 * pow256((n - 1) as nat),
                v == 256 * q + r,
                0 <= r < 256,
                q >= 0,
        ;
        lemma_be_value_of_be_bytes(q as nat, (n - 1) as nat);
        let head = be_bytes(q as int, (n - 1) as nat);
        lemma_be_value_concat(head, seq![r as u8]);
        assert(head.push(r as u8) =~= head + seq![r as u8]);
        lemma_be_value_single(r as u8);
        assert(pow256(1) == 256) by {
            assert(pow256(0) == 1);
        }
        let hq = be_value(head) as int;
        assert(hq * pow256(1) + r == v) by (nonlinear_arith)
            requires hq == q, pow256(1) == 256, v == 256 * q + r;
        assert(be_bytes(v as int, n) == head.push(r as u8));
    }
}

} // verus!
