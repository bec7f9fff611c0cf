//! Blocks and transactions, held as plain values, and their Bitcoin wire
//! serialization.

use vstd::prelude::*;

use crate::encoding::{
    le_bytes, le_value, lemma_le_bytes_len, lemma_le_value_of_le_bytes_mod, push_all, varint_bytes,
};
use crate::hash::Hash256;

verus! {

/// A reference to an output of an earlier transaction.
#[derive(Clone, Copy, Debug, PartialEq, Eq)]
pub struct OutPoint {
    pub hash: Hash256,
    pub index: u32,
}

/// A transaction input.
#[derive(Clone, Debug)]
pub struct TransactionInput {
    pub prevout: OutPoint,
    pub sequence: u64,
    pub script_sig: Vec<u8>,
}

/// A transaction output.
#[derive(Clone, Debug)]
pub struct TransactionOutput {
    pub value: i64,
    pub script_pubkey: Vec<u8>,
}

/// A transaction.
#[derive(Clone, Debug)]
pub struct Transaction {
    pub version: u64,
    pub inputs: Vec<TransactionInput>,
    pub outputs: Vec<TransactionOutput>,
    pub lock_time: u64,
}

/// A block header.
#[derive(Clone, Copy, Debug, PartialEq, Eq)]
pub struct BlockHeader {
    pub version: i64,
    pub prev_block_hash: Hash256,
    pub merkle_root: Hash256,
    pub timestamp: u64,
    pub bits: u64,
    pub nonce: u64,
}

/// A block: a header and its transactions, the coinbase first.
#[derive(Clone, Debug)]
pub struct Block {
    pub header: BlockHeader,
    pub transactions: Vec<Transaction>,
}

pub struct InputView {
    pub prevout: OutPoint,
    pub sequence: u64,
    pub script_sig: Seq<u8>,
}

pub struct OutputView {
    pub value: i64,
    pub script_pubkey: Seq<u8>,
}

pub struct TransactionView {
    pub version: u64,
    pub inputs: Seq<InputView>,
    pub outputs: Seq<OutputView>,
    pub lock_time: u64,
}

pub struct BlockView {
    pub header: BlockHeader,
    pub transactions: Seq<TransactionView>,
}

impl View for TransactionInput {
    type V = InputView;

    open spec fn view(&self) -> InputView {
        InputView { prevout: self.prevout, sequence: self.sequence, script_sig: self.script_sig@ }
    }
}

impl View for TransactionOutput {
    type V = OutputView;

    open spec fn view(&self) -> OutputView {
        OutputView { value: self.value, script_pubkey: self.script_pubkey@ }
    }
}

impl View for Transaction {
    type V = TransactionView;

    open spec fn view(&self) -> TransactionView {
        TransactionView {
            version: self.version,
            inputs: self.inputs@.map_values(|i: TransactionInput| i@),
            outputs: self.outputs@.map_values(|o: TransactionOutput| o@),
            lock_time: self.lock_time,
        }
    }
}

impl View for Block {
    type V = BlockView;

    open spec fn view(&self) -> BlockView {
        BlockView {
            header: self.header,
            transactions: self.transactions@.map_values(|t: Transaction| t@),
        }
    }
}

/// Wire form of an input: outpoint hash, index (4 bytes), script length,
/// script, sequence (low 4 bytes).
pub open spec fn input_bytes(i: InputView) -> Seq<u8> {
    i.prevout.hash@ + le_bytes(i.prevout.index as int, 4) + varint_bytes(i.script_sig.len() as u64)
        + i.script_sig + le_bytes(i.sequence as int, 4)
}

/// Wire form of an output: value (8 bytes, two's complement), script
/// length, script.
pub open spec fn output_bytes(o: OutputView) -> Seq<u8> {
    le_bytes((o.value as u64) as int, 8) + varint_bytes(o.script_pubkey.len() as u64) + o.script_pubkey
}

/// The inputs' wire forms, one after another.
pub open spec fn inputs_bytes(s: Seq<InputView>) -> Seq<u8>
    decreases s.len(),
{
    if s.len() == 0 {
        Seq::empty()
    } else {
        inputs_bytes(s.drop_last()) + input_bytes(s.last())
    }
}

/// The outputs' wire forms, one after another.
pub open spec fn outputs_bytes(s: Seq<OutputView>) -> Seq<u8>
    decreases s.len(),
{
    if s.len() == 0 {
        Seq::empty()
    } else {
        outputs_bytes(s.drop_last()) + output_bytes(s.last())
    }
}

/// Legacy (non-witness) wire form of a transaction: version (low 4 bytes),
/// input count, inputs, output count, outputs, lock time (low 4 bytes).
pub open spec fn tx_bytes(tx: TransactionView) -> Seq<u8> {
    le_bytes(tx.version as int, 4) + varint_bytes(tx.inputs.len() as u64) + inputs_bytes(tx.inputs)
        + varint_bytes(tx.outputs.len() as u64) + outputs_bytes(tx.outputs)
        + le_bytes(tx.lock_time as int, 4)
}

/// The 80-byte header form that is hashed for proof of work: version,
/// timestamp, bits and nonce each as their low 4 bytes, little-endian (the
/// version in two's complement).
pub open spec fn header_bytes(h: BlockHeader) -> Seq<u8> {
    le_bytes((h.version as u64) as int, 4) + h.prev_block_hash@ + h.merkle_root@ + le_bytes(
        h.timestamp as int,
        4,
    ) + le_bytes(h.bits as int, 4) + le_bytes(h.nonce as int, 4)
}

/// A transaction's wire form begins with its version and ends with its
/// lock time, each as 4 little-endian bytes: read back little-endian they
/// give the version and the lock time modulo 2^32.
pub proof fn lemma_tx_bytes_ends(tx: TransactionView)
    ensures
        tx_bytes(tx).len() >= 8,
        le_value(tx_bytes(tx).subrange(0, 4)) == tx.version % 0x1_0000_0000,
        le_value(tx_bytes(tx).subrange(tx_bytes(tx).len() - 4, tx_bytes(tx).len() as int))
            == tx.lock_time % 0x1_0000_0000,
{
    let b = tx_bytes(tx);
    let head = le_bytes(tx.version as int, 4);
    let tail = le_bytes(tx.lock_time as int, 4);
    lemma_le_bytes_len(tx.version as int, 4);
    lemma_le_bytes_len(tx.lock_time as int, 4);
    let mid = varint_bytes(tx.inputs.len() as u64) + inputs_bytes(tx.inputs) + varint_bytes(
        tx.outputs.len() as u64,
    ) + outputs_bytes(tx.outputs);
    assert(b =~= head + mid + tail);
    assert(b.subrange(0, 4) =~= head);
    assert(b.subrange(b.len() - 4, b.len() as int) =~= tail);
    lemma_le_value_of_le_bytes_mod(tx.version as int, 4);
    lemma_le_value_of_le_bytes_mod(tx.lock_time as int, 4);
    assert(crate::encoding::pow256(4) == 0x1_0000_0000) by {
        reveal_with_fuel(crate::encoding::pow256, 5);
    }
}

/// The 80-byte header holds, in order: the version, timestamp, bits and
/// nonce modulo 2^32 read little-endian, and the previous hash and merkle
/// root as they are.
pub proof fn lemma_header_bytes_fields(h: BlockHeader)
    ensures
        header_bytes(h).len() == 80,
        le_value(header_bytes(h).subrange(0, 4)) == (h.version as u64) % 0x1_0000_0000,
        header_bytes(h).subrange(4, 36) == h.prev_block_hash@,
        header_bytes(h).subrange(36, 68) == h.merkle_root@,
        le_value(header_bytes(h).subrange(68, 72)) == h.timestamp % 0x1_0000_0000,
        le_value(header_bytes(h).subrange(72, 76)) == h.bits % 0x1_0000_0000,
        le_value(header_bytes(h).subrange(76, 80)) == h.nonce % 0x1_0000_0000,
{
    let b = header_bytes(h);
    lemma_le_bytes_len((h.version as u64) as int, 4);
    lemma_le_bytes_len(h.timestamp as int, 4);
    lemma_le_bytes_len(h.bits as int, 4);
    lemma_le_bytes_len(h.nonce as int, 4);
    assert(b.subrange(0, 4) =~= le_bytes((h.version as u64) as int, 4));
    assert(b.subrange(4, 36) =~= h.prev_block_hash@);
    assert(b.subrange(36, 68) =~= h.merkle_root@);
    assert(b.subrange(68, 72) =~= le_bytes(h.timestamp as int, 4));
    assert(b.subrange(72, 76) =~= le_bytes(h.bits as int, 4));
    assert(b.subrange(76, 80) =~= le_bytes(h.nonce as int, 4));
    lemma_le_value_of_le_bytes_mod((h.version as u64) as int, 4);
    lemma_le_value_of_le_bytes_mod(h.timestamp as int, 4);
    lemma_le_value_of_le_bytes_mod(h.bits as int, 4);
    lemma_le_value_of_le_bytes_mod(h.nonce as int, 4);
    assert(crate::encoding::pow256(4) == 0x1_0000_0000) by {
        reveal_with_fuel(crate::encoding::pow256, 5);
    }
}

/// A copy of a byte vector.
pub fn copy_bytes(v: &Vec<u8>) -> (res: Vec<u8>)
    ensures
        res@ == v@,
{
    let mut out: Vec<u8> = Vec::new();
    push_all(&mut out, v.as_slice());
    assert(Seq::<u8>::empty() + v@ =~= v@);
    out
}

impl TransactionInput {
    /// A copy of this input.
    pub fn copy(&self) -> (res: Self)
        ensures
            res@ == self@,
    {
        TransactionInput {
            prevout: self.prevout,
            sequence: self.sequence,
            script_sig: copy_bytes(&self.script_sig),
        }
    }
}

impl TransactionOutput {
    /// A copy of this output.
    pub fn copy(&self) -> (res: Self)
        ensures
            res@ == self@,
    {
        TransactionOutput { value: self.value, script_pubkey: copy_bytes(&self.script_pubkey) }
    }
}

impl Transaction {
    /// A copy of this transaction.
    pub fn copy(&self) -> (res: Self)
        ensures
            res@ == self@,
    {
        let mut inputs: Vec<TransactionInput> = Vec::new();
        let mut i: usize = 0;
        while i < self.inputs.len()
            invariant
                i <= self.inputs@.len(),
                inputs@.len() == i,
                forall|k: int| 0 <= k < i ==> (#[trigger] inputs@[k])@ == self.inputs@[k]@,
            decreases self.inputs@.len() - i,
        {
            inputs.push(self.inputs[i].copy());
            i = i + 1;
        }
        let mut outputs: Vec<TransactionOutput> = Vec::new();
        let mut j: usize = 0;
        while j < self.outputs.len()
            invariant
                j <= self.outputs@.len(),
                outputs@.len() == j,
                forall|k: int| 0 <= k < j ==> (#[trigger] outputs@[k])@ == self.outputs@[k]@,
            decreases self.outputs@.len() - j,
        {
            outputs.push(self.outputs[j].copy());
            j = j + 1;
        }
        assert(inputs@.map_values(|x: TransactionInput| x@) =~= self.inputs@.map_values(
            |x: TransactionInput| x@,
        ));
        assert(outputs@.map_values(|x: TransactionOutput| x@) =~= self.outputs@.map_values(
            |x: TransactionOutput| x@,
        ));
        Transaction { version: self.version, inputs, outputs, lock_time: self.lock_time }
    }
}

/// A copy of a list of transactions.
pub fn copy_transactions(txs: &Vec<Transaction>) -> (res: Vec<Transaction>)
    ensures
        res@.map_values(|t: Transaction| t@) == txs@.map_values(|t: Transaction| t@),
{
    let mut out: Vec<Transaction> = Vec::new();
    let mut i: usize = 0;
    while i < txs.len()
        invariant
            i <= txs@.len(),
            out@.len() == i,
            forall|k: int| 0 <= k < i ==> (#[trigger] out@[k])@ == txs@[k]@,
        decreases txs@.len() - i,
    {
        out.push(txs[i].copy());
        i = i + 1;
    }
    assert(out@.map_values(|t: Transaction| t@) =~= txs@.map_values(|t: Transaction| t@));
    out
}

impl Block {
    /// A copy of this block.
    pub fn copy(&self) -> (res: Self)
        ensures
            res@ == self@,
    {
        Block { header: self.header, transactions: copy_transactions(&self.transactions) }
    }
}

} // verus!
