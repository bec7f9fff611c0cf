//! Merkle branches and coinbase splitting for mining jobs.

use vstd::prelude::*;

use crate::encoding::{lemma_varint_read_len, varint_read};
use crate::hash::sha256d;
use crate::types::{tx_bytes, BlockView, TransactionView};

verus! {

/// Transaction id: double SHA-256 of the legacy serialization.
pub open spec fn txid(tx: TransactionView) -> Seq<u8> {
    sha256d(tx_bytes(tx))
}

/// Parent of two Merkle nodes.
pub open spec fn hash_pair(a: Seq<u8>, b: Seq<u8>) -> Seq<u8> {
    sha256d(a + b)
}

/// The next level of a Merkle tree: nodes hashed pairwise, a last unpaired
/// node paired with itself.
pub open spec fn next_level(l: Seq<Seq<u8>>) -> Seq<Seq<u8>> {
    Seq::new(
        ((l.len() + 1) / 2) as nat,
        |j: int| hash_pair(l[2 * j], if 2 * j + 1 < l.len() { l[2 * j + 1] } else { l[2 * j] }),
    )
}

/// The Merkle branch of the first leaf: its sibling on every level, from
/// the leaves up to (not including) the root.
pub open spec fn merkle_branch(l: Seq<Seq<u8>>) -> Seq<Seq<u8>>
    decreases l.len(),
{
    if l.len() <= 1 {
        Seq::empty()
    } else {
        seq![l[1]] + merkle_branch(next_level(l))
    }
}

/// Where a serialized coinbase is split for miners: after the version
/// (4 bytes), the input count (1 byte), the outpoint (36 bytes) and the
/// script-length integer, each step taken only while bytes remain; half the
/// length where that leaves nothing after the split.
pub open spec fn coinbase_split(cb: Seq<u8>) -> int {
    let after_count: int = if cb.len() > 4 { 5 } else { 4 };
    let after_outpoint: int = if cb.len() > after_count + 36 {
        after_count + 36
    } else {
        after_count
    };
    let after_len: int = if cb.len() > after_outpoint {
        after_outpoint + varint_read(cb.subrange(after_outpoint, cb.len() as int)).1
    } else {
        after_outpoint
    };
    if after_len >= cb.len() {
        (cb.len() / 2) as int
    } else {
        after_len
    }
}

/// The parts of a job made from a block template: coinbase prefix, coinbase
/// suffix, and the Merkle branch of the coinbase (empty for a lone
/// coinbase); all empty for a block with no transactions.
pub open spec fn template_parts(b: BlockView) -> (Seq<u8>, Seq<u8>, Seq<Seq<u8>>) {
    if b.transactions.len() == 0 {
        (Seq::empty(), Seq::empty(), Seq::empty())
    } else {
        let cb = tx_bytes(b.transactions[0]);
        let sp = coinbase_split(cb);
        (
            cb.subrange(0, sp),
            cb.subrange(sp, cb.len() as int),
            if b.transactions.len() > 1 {
                merkle_branch(b.transactions.map_values(|t: TransactionView| txid(t)))
            } else {
                Seq::empty()
            },
        )
    }
}

/// The Merkle root of a non-empty level: its only node, or the root of
/// the next level.
pub open spec fn merkle_root(l: Seq<Seq<u8>>) -> Seq<u8>
    decreases l.len(),
{
    if l.len() <= 1 {
        l[0]
    } else {
        merkle_root(next_level(l))
    }
}

/// Hashing `h` up a branch: with each sibling, `h` on the left.
pub open spec fn fold_branch(h: Seq<u8>, branch: Seq<Seq<u8>>) -> Seq<u8>
    decreases branch.len(),
{
    if branch.len() == 0 {
        h
    } else {
        fold_branch(hash_pair(h, branch[0]), branch.subrange(1, branch.len() as int))
    }
}

/// The coinbase's branch leads from the coinbase to the Merkle root: hashing
/// the first leaf up its branch gives the root of the tree.
pub proof fn lemma_branch_reaches_root(l: Seq<Seq<u8>>)
    requires
        l.len() >= 1,
    ensures
        fold_branch(l[0], merkle_branch(l)) == merkle_root(l),
    decreases l.len(),
{
    if l.len() > 1 {
        let n = next_level(l);
        lemma_branch_reaches_root(n);
        let b = merkle_branch(l);
        assert(b == seq![l[1]] + merkle_branch(n));
        assert(b.subrange(1, b.len() as int) =~= merkle_branch(n));
        assert(n[0] == hash_pair(l[0], l[1]));
    }
}

/// The number of levels above `n` leaves: how often halving (rounding up)
/// takes `n` down to one, that is `ceil(log2 n)`.
pub open spec fn tree_depth(n: nat) -> nat
    decreases n,
{
    if n <= 1 {
        0
    } else {
        1 + tree_depth(((n + 1) / 2) as nat)
    }
}

/// The branch has one sibling per level of the tree, and the first is the
/// second leaf.
pub proof fn lemma_branch_shape(l: Seq<Seq<u8>>)
    ensures
        merkle_branch(l).len() == tree_depth(l.len()),
        l.len() > 1 ==> merkle_branch(l)[0] == l[1],
    decreases l.len(),
{
    if l.len() > 1 {
        lemma_branch_shape(next_level(l));
    }
}

/// The split point lies within the coinbase.
pub proof fn lemma_coinbase_split_in_range(cb: Seq<u8>)
    ensures
        0 <= coinbase_split(cb) <= cb.len(),
{
    let after_count: int = if cb.len() > 4 { 5 } else { 4 };
    let after_outpoint: int = if cb.len() > after_count + 36 { after_count + 36 } else { after_count };
    if cb.len() > after_outpoint {
        lemma_varint_read_len(cb.subrange(after_outpoint, cb.len() as int));
    }
}

/// The coinbase prefix and suffix of a job rejoin into the serialized
/// coinbase.
pub proof fn lemma_coinbase_parts_rejoin(b: BlockView)
    requires
        b.transactions.len() > 0,
    ensures
        template_parts(b).0 + template_parts(b).1 == tx_bytes(b.transactions[0]),
{
    let cb = tx_bytes(b.transactions[0]);
    lemma_coinbase_split_in_range(cb);
    let sp = coinbase_split(cb);
    assert(cb.subrange(0, sp) + cb.subrange(sp, cb.len() as int) =~= cb);
}

} // verus!
