//! What validation detects when a stored block is changed.

use vstd::prelude::*;
use vstd::utf8::encode_utf8;
use crate::block::BlockView;
use crate::blockchain::BlockchainView;
use crate::codec::{block_storable, lemma_preimage_injective};
use crate::digest::{lemma_same_digest, sha256_collision};
use crate::transaction::TxnView;

verus! {

/// The chain with the batch of the block at `index` replaced by `batch`, and
/// nothing else changed.
pub open spec fn with_batch(
    chain: BlockchainView,
    index: int,
    batch: Seq<TxnView>,
) -> BlockchainView
    recommends
        0 <= index < chain.blocks.len(),
{
    BlockchainView {
        blocks: chain.blocks.update(index, BlockView { transaction: batch, ..chain.blocks[index] }),
        ..chain
    }
}

/// Replacing the batch of any block but the first makes a chain that was
/// valid invalid, unless the old and the new digest input of that block are
/// a SHA-256 collision. (The first block is never checked, so a change to it
/// goes unnoticed.)
pub proof fn lemma_tamper_detected(chain: BlockchainView, index: int, batch: Seq<TxnView>)
    requires
        chain.valid(),
        1 <= index < chain.blocks.len(),
        batch != chain.blocks[index].transaction,
        block_storable(chain.blocks[index]),
        block_storable(with_batch(chain, index, batch).blocks[index]),
    ensures
        with_batch(chain, index, batch).valid() ==> sha256_collision(
            encode_utf8(chain.blocks[index].preimage_at(chain.blocks[index].nonce)),
            encode_utf8(
                with_batch(chain, index, batch).blocks[index].preimage_at(
                    chain.blocks[index].nonce,
                ),
            ),
        ),
{
    let stored = chain.blocks[index];
    let changed_chain = with_batch(chain, index, batch);
    let changed = changed_chain.blocks[index];
    if changed_chain.valid() {
        lemma_same_digest(stored.preimage_at(stored.nonce), changed.preimage_at(changed.nonce));
        if stored.preimage_at(stored.nonce) == changed.preimage_at(changed.nonce) {
            lemma_preimage_injective(stored, changed);
        }
    }
}

} // verus!
