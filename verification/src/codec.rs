//! The bytes under which a block is stored: its fields one after the other,
//! integers in little-endian order, and the length of a list before its items.

use vstd::prelude::*;

use crate::block::{Block, BlockModel, Transaction, TxModel};

verus! {

/// The fields of a stored transaction, in the order in which they are encoded.
pub type TxFields = ([u8; 32], [u8; 32], [u8; 32], u64, u64, Vec<u8>);

/// The fields of a stored block, in the order in which they are encoded.
pub type BlockFields = (
    u64,
    [u8; 32],
    u64,
    [u8; 32],
    u64,
    [u8; 32],
    u64,
    Vec<TxFields>,
    u64,
);

/// A transaction's encoding up to the length of its proof.
pub open spec fn tx_header(tx: TxModel) -> Seq<u8> {
    tx.hash@ + tx.sender@ + tx.recipient@ + vstd::bytes::spec_u64_to_le_bytes(tx.amount)
        + vstd::bytes::spec_u64_to_le_bytes(tx.sequence) + vstd::bytes::spec_u64_to_le_bytes(
        tx.proof_bytes.len() as u64,
    )
}

/// The encoding of a transaction.
pub open spec fn encoded_tx(tx: TxModel) -> Seq<u8> {
    tx_header(tx) + tx.proof_bytes
}

/// The encodings of some transactions, one after the other.
pub open spec fn encoded_txs(txs: Seq<TxModel>) -> Seq<u8>
    decreases txs.len(),
{
    if txs.len() == 0 {
        Seq::empty()
    } else {
        encoded_tx(txs[0]) + encoded_txs(txs.drop_first())
    }
}

/// A block's encoding up to the number of its transactions.
pub open spec fn block_header(block: BlockModel) -> Seq<u8> {
    vstd::bytes::spec_u64_to_le_bytes(block.index) + block.prev_hash@
        + vstd::bytes::spec_u64_to_le_bytes(block.timestamp) + block.miner@
        + vstd::bytes::spec_u64_to_le_bytes(block.nonce) + block.hash@
        + vstd::bytes::spec_u64_to_le_bytes(block.reward) + vstd::bytes::spec_u64_to_le_bytes(
        block.transactions.len() as u64,
    )
}

/// The encoding of a block.
pub open spec fn encoded_block(block: BlockModel) -> Seq<u8> {
    block_header(block) + (encoded_txs(block.transactions) + vstd::bytes::spec_u64_to_le_bytes(
        block.difficulty_target,
    ))
}

/// Whether the lengths within some transactions can be encoded.
pub open spec fn txs_storable(txs: Seq<TxModel>) -> bool {
    forall|i: int| 0 <= i < txs.len() ==> (#[trigger] txs[i]).proof_bytes.len() <= u64::MAX
}

/// Whether the lengths within a block can be encoded.
pub open spec fn storable(block: BlockModel) -> bool {
    block.transactions.len() <= u64::MAX && txs_storable(block.transactions)
}

/// The block whose encoding some bytes begin with, if they begin with one.
#[verifier::opaque]
pub open spec fn decoded_block(bytes: Seq<u8>) -> Option<BlockModel> {
    if exists|b: BlockModel| storable(b) && #[trigger] encoded_block(b).is_prefix_of(bytes) {
        Some(
            choose|b: BlockModel| storable(b) && #[trigger] encoded_block(b).is_prefix_of(bytes),
        )
    } else {
        None
    }
}

proof fn lemma_split(x: Seq<u8>, rest: Seq<u8>, bytes: Seq<u8>)
    requires
        (x + rest).is_prefix_of(bytes),
    ensures
        x.len() <= bytes.len(),
        x == bytes.take(x.len() as int),
        rest.is_prefix_of(bytes.skip(x.len() as int)),
{
    let both = bytes.subrange(0, (x + rest).len() as int);
    assert forall|i: int| 0 <= i < x.len() implies x[i] == bytes[i] by {
        assert((x + rest)[i] == both[i]);
    }
    assert(x =~= bytes.take(x.len() as int));
    let after = bytes.skip(x.len() as int);
    assert forall|i: int| 0 <= i < rest.len() implies rest[i] == after[i] by {
        assert((x + rest)[x.len() + i] == both[x.len() + i]);
    }
    assert(rest =~= after.subrange(0, rest.len() as int));
}

proof fn lemma_u64_bytes(a: u64, b: u64)
    ensures
        vstd::bytes::spec_u64_to_le_bytes(a).len() == 8,
        vstd::bytes::spec_u64_to_le_bytes(a) == vstd::bytes::spec_u64_to_le_bytes(b) ==> a == b,
{
    vstd::bytes::lemma_auto_spec_u64_to_from_le_bytes();
}

proof fn lemma_tx_header(a: TxModel, b: TxModel)
    requires
        a.proof_bytes.len() <= u64::MAX,
        b.proof_bytes.len() <= u64::MAX,
    ensures
        tx_header(a).len() == 120,
        tx_header(a) == tx_header(b) ==> a.hash == b.hash && a.sender == b.sender && a.recipient
            == b.recipient && a.amount == b.amount && a.sequence == b.sequence
            && a.proof_bytes.len() == b.proof_bytes.len(),
{
    let (h, k) = (tx_header(a), tx_header(b));
    lemma_u64_bytes(a.amount, b.amount);
    lemma_u64_bytes(b.amount, a.amount);
    lemma_u64_bytes(a.sequence, b.sequence);
    lemma_u64_bytes(b.sequence, a.sequence);
    lemma_u64_bytes(a.proof_bytes.len() as u64, b.proof_bytes.len() as u64);
    lemma_u64_bytes(b.proof_bytes.len() as u64, a.proof_bytes.len() as u64);
    if h == k {
        assert(h.subrange(0, 32) =~= a.hash@ && k.subrange(0, 32) =~= b.hash@);
        assert(h.subrange(32, 64) =~= a.sender@ && k.subrange(32, 64) =~= b.sender@);
        assert(h.subrange(64, 96) =~= a.recipient@ && k.subrange(64, 96) =~= b.recipient@);
        assert(h.subrange(96, 104) =~= vstd::bytes::spec_u64_to_le_bytes(a.amount));
        assert(k.subrange(96, 104) =~= vstd::bytes::spec_u64_to_le_bytes(b.amount));
        assert(h.subrange(104, 112) =~= vstd::bytes::spec_u64_to_le_bytes(a.sequence));
        assert(k.subrange(104, 112) =~= vstd::bytes::spec_u64_to_le_bytes(b.sequence));
        assert(h.subrange(112, 120) =~= vstd::bytes::spec_u64_to_le_bytes(
            a.proof_bytes.len() as u64,
        ));
        assert(k.subrange(112, 120) =~= vstd::bytes::spec_u64_to_le_bytes(
            b.proof_bytes.len() as u64,
        ));
        assert(a.hash =~= b.hash);
        assert(a.sender =~= b.sender);
        assert(a.recipient =~= b.recipient);
    }
}

proof fn lemma_block_header(a: BlockModel, b: BlockModel)
    requires
        storable(a),
        storable(b),
    ensures
        block_header(a).len() == 136,
        block_header(a) == block_header(b) ==> a.index == b.index && a.prev_hash == b.prev_hash
            && a.timestamp == b.timestamp && a.miner == b.miner && a.nonce == b.nonce && a.hash
            == b.hash && a.reward == b.reward && a.transactions.len() == b.transactions.len(),
{
    let (h, k) = (block_header(a), block_header(b));
    lemma_u64_bytes(a.index, b.index);
    lemma_u64_bytes(b.index, a.index);
    lemma_u64_bytes(a.timestamp, b.timestamp);
    lemma_u64_bytes(b.timestamp, a.timestamp);
    lemma_u64_bytes(a.nonce, b.nonce);
    lemma_u64_bytes(b.nonce, a.nonce);
    lemma_u64_bytes(a.reward, b.reward);
    lemma_u64_bytes(b.reward, a.reward);
    lemma_u64_bytes(a.transactions.len() as u64, b.transactions.len() as u64);
    lemma_u64_bytes(b.transactions.len() as u64, a.transactions.len() as u64);
    if h == k {
        assert(h.subrange(0, 8) =~= vstd::bytes::spec_u64_to_le_bytes(a.index));
        assert(k.subrange(0, 8) =~= vstd::bytes::spec_u64_to_le_bytes(b.index));
        assert(h.subrange(8, 40) =~= a.prev_hash@ && k.subrange(8, 40) =~= b.prev_hash@);
        assert(h.subrange(40, 48) =~= vstd::bytes::spec_u64_to_le_bytes(a.timestamp));
        assert(k.subrange(40, 48) =~= vstd::bytes::spec_u64_to_le_bytes(b.timestamp));
        assert(h.subrange(48, 80) =~= a.miner@ && k.subrange(48, 80) =~= b.miner@);
        assert(h.subrange(80, 88) =~= vstd::bytes::spec_u64_to_le_bytes(a.nonce));
        assert(k.subrange(80, 88) =~= vstd::bytes::spec_u64_to_le_bytes(b.nonce));
        assert(h.subrange(88, 120) =~= a.hash@ && k.subrange(88, 120) =~= b.hash@);
        assert(h.subrange(120, 128) =~= vstd::bytes::spec_u64_to_le_bytes(a.reward));
        assert(k.subrange(120, 128) =~= vstd::bytes::spec_u64_to_le_bytes(b.reward));
        assert(h.subrange(128, 136) =~= vstd::bytes::spec_u64_to_le_bytes(
            a.transactions.len() as u64,
        ));
        assert(k.subrange(128, 136) =~= vstd::bytes::spec_u64_to_le_bytes(
            b.transactions.len() as u64,
        ));
        assert(a.prev_hash =~= b.prev_hash);
        assert(a.miner =~= b.miner);
        assert(a.hash =~= b.hash);
    }
}

/// Bytes begin with the encodings of only one list of transactions of a given
/// length.
proof fn lemma_txs_unique(
    a: Seq<TxModel>,
    after_a: Seq<u8>,
    b: Seq<TxModel>,
    after_b: Seq<u8>,
    bytes: Seq<u8>,
)
    requires
        a.len() == b.len(),
        txs_storable(a),
        txs_storable(b),
        (encoded_txs(a) + after_a).is_prefix_of(bytes),
        (encoded_txs(b) + after_b).is_prefix_of(bytes),
    ensures
        a == b,
    decreases a.len(),
{
    if a.len() == 0 {
        assert(a =~= b);
    } else {
        let (x, y) = (a[0], b[0]);
        let more_a = encoded_txs(a.drop_first()) + after_a;
        let more_b = encoded_txs(b.drop_first()) + after_b;
        assert(encoded_txs(a) + after_a =~= tx_header(x) + (x.proof_bytes + more_a));
        assert(encoded_txs(b) + after_b =~= tx_header(y) + (y.proof_bytes + more_b));
        lemma_tx_header(x, y);
        lemma_tx_header(y, x);
        lemma_split(tx_header(x), x.proof_bytes + more_a, bytes);
        lemma_split(tx_header(y), y.proof_bytes + more_b, bytes);
        let next = bytes.skip(120);
        lemma_split(x.proof_bytes, more_a, next);
        lemma_split(y.proof_bytes, more_b, next);
        assert(x == y);
        let rest = next.skip(x.proof_bytes.len() as int);
        assert(txs_storable(a.drop_first())) by {
            assert forall|i: int| 0 <= i < a.drop_first().len() implies (
            #[trigger] a.drop_first()[i]).proof_bytes.len() <= u64::MAX by {
                assert(a[i + 1].proof_bytes.len() <= u64::MAX);
            }
        }
        assert(txs_storable(b.drop_first())) by {
            assert forall|i: int| 0 <= i < b.drop_first().len() implies (
            #[trigger] b.drop_first()[i]).proof_bytes.len() <= u64::MAX by {
                assert(b[i + 1].proof_bytes.len() <= u64::MAX);
            }
        }
        lemma_txs_unique(a.drop_first(), after_a, b.drop_first(), after_b, rest);
        assert forall|i: int| 0 <= i < a.len() implies a[i] == b[i] by {
            if i > 0 {
                assert(a.drop_first()[i - 1] == b.drop_first()[i - 1]);
            }
        }
        assert(a =~= b);
    }
}

/// Bytes begin with the encoding of one block at most, so that whatever follows a
/// block's encoding, decoding gives that block back.
pub proof fn law_encoding_determines_the_block(block: BlockModel, after: Seq<u8>)
    requires
        storable(block),
    ensures
        decoded_block(encoded_block(block) + after) == Some(block),
{
    reveal(decoded_block);
    let bytes = encoded_block(block) + after;
    assert(encoded_block(block) =~= bytes.subrange(0, encoded_block(block).len() as int));
    assert(encoded_block(block).is_prefix_of(bytes));
    let other = choose|b: BlockModel| storable(b) && #[trigger]
        encoded_block(b).is_prefix_of(bytes);
    lemma_block_unique(block, other, bytes);
}

proof fn lemma_block_unique(a: BlockModel, b: BlockModel, bytes: Seq<u8>)
    requires
        storable(a),
        storable(b),
        encoded_block(a).is_prefix_of(bytes),
        encoded_block(b).is_prefix_of(bytes),
    ensures
        a == b,
{
    let end_a = vstd::bytes::spec_u64_to_le_bytes(a.difficulty_target);
    let end_b = vstd::bytes::spec_u64_to_le_bytes(b.difficulty_target);
    lemma_block_header(a, b);
    lemma_block_header(b, a);
    lemma_split(block_header(a), encoded_txs(a.transactions) + end_a, bytes);
    lemma_split(block_header(b), encoded_txs(b.transactions) + end_b, bytes);
    let next = bytes.skip(136);
    lemma_txs_unique(a.transactions, end_a, b.transactions, end_b, next);
    lemma_split(encoded_txs(a.transactions), end_a, next);
    lemma_split(encoded_txs(b.transactions), end_b, next);
    let rest = next.skip(encoded_txs(a.transactions).len() as int);
    lemma_u64_bytes(a.difficulty_target, b.difficulty_target);
    lemma_u64_bytes(b.difficulty_target, a.difficulty_target);
    assert(end_a =~= rest.subrange(0, 8));
    assert(end_b =~= rest.subrange(0, 8));
}

/// Two blocks have the same encoding only if they are the same.
pub proof fn law_encodings_are_distinct(a: BlockModel, b: BlockModel)
    requires
        storable(a),
        storable(b),
    ensures
        encoded_block(a) == encoded_block(b) <==> a == b,
{
    if encoded_block(a) == encoded_block(b) {
        let bytes = encoded_block(a);
        assert(bytes =~= bytes.subrange(0, bytes.len() as int));
        lemma_block_unique(a, b, bytes);
    }
}

/// Calls `bincode::serialize` on the fields of a block. It writes the fields one
/// after the other: integers in eight little-endian bytes, byte arrays as they
/// are, and the number of items before those of a list. Writing to memory does not
/// fail.
#[verifier::external_body]
fn serialize_block(b: &Block) -> (bytes: Vec<u8>)
    ensures
        bytes@ == encoded_block(b@),
{
    let txs: Vec<_> = b.transactions.iter().map(
        |t| (t.hash, t.sender, t.recipient, t.amount, t.sequence, &t.proof_bytes),
    ).collect();
    let fields = (b.index, b.prev_hash, b.timestamp, b.miner, b.nonce, b.hash, b.reward, txs,
        b.difficulty_target);
    bincode::serialize(&fields).expect("block serialization")
}

/// Calls `bincode::deserialize` for the fields of a block. It reads what
/// `bincode::serialize` writes and does not look at bytes that follow; it fails
/// where the bytes do not begin with an encoding.
#[verifier::external_body]
fn deserialize_block(bytes: &[u8]) -> (block: Option<Block>)
    ensures
        match block {
            Some(b) => encoded_block(b@).is_prefix_of(bytes@),
            None => forall|b: BlockModel|
                storable(b) ==> !(#[trigger] encoded_block(b).is_prefix_of(bytes@)),
        },
{
    let (index, prev_hash, timestamp, miner, nonce, hash, reward, txs, difficulty_target):
        BlockFields = bincode::deserialize(bytes).ok()?;
    let transactions = txs.into_iter().map(|t: TxFields| Transaction {
        hash: t.0, sender: t.1, recipient: t.2, amount: t.3, sequence: t.4, proof_bytes: t.5,
    }).collect();
    Some(Block { index, prev_hash, timestamp, miner, nonce, hash, reward, transactions,
        difficulty_target })
}

proof fn lemma_block_is_storable(block: &Block)
    ensures
        storable(block@),
{
    assert(block.transactions.len() <= usize::MAX);
    assert forall|i: int| 0 <= i < block@.transactions.len() implies (
    #[trigger] block@.transactions[i]).proof_bytes.len() <= u64::MAX by {
        assert(block.transactions@[i].proof_bytes.len() <= usize::MAX);
    }
}

/// The bytes under which a block is stored.
pub fn encode_block(block: &Block) -> (bytes: Vec<u8>)
    ensures
        bytes@ == encoded_block(block@),
        decoded_block(bytes@) == Some(block@),
{
    let bytes = serialize_block(block);
    proof {
        lemma_block_is_storable(block);
        law_encoding_determines_the_block(block@, Seq::empty());
        assert(encoded_block(block@) + Seq::<u8>::empty() =~= bytes@);
    }
    bytes
}

/// The block that was stored under some bytes, if they begin with one.
pub fn decode_block(bytes: &[u8]) -> (block: Option<Block>)
    ensures
        match block {
            Some(b) => decoded_block(bytes@) == Some(b@),
            None => decoded_block(bytes@) is None,
        },
{
    let block = deserialize_block(bytes);
    proof {
        reveal(decoded_block);
        if block is Some {
            let b = block->0;
            lemma_block_is_storable(&b);
            let other = choose|b: BlockModel| storable(b) && #[trigger]
                encoded_block(b).is_prefix_of(bytes@);
            lemma_block_unique(b@, other, bytes@);
        }
    }
    block
}

} // verus!
