//! The chain of blocks: construction, growth and validation.

use vstd::prelude::*;
use vstd::string::*;
use crate::block::{fresh_block, mined, Block, BlockView};
use crate::clock::unix_time;
use crate::config::{difficulty_in_range, is_difficulty_in_range};
use crate::digest::{has_zero_prefix, meets_difficulty, DIGEST_LEN};
use crate::transaction::{
    batch_valid, batch_view, first_invalid, is_first_invalid, txn_valid, Txn, TxnView,
};

verus! {

/// The ledger: its blocks, oldest first, and the difficulty that new blocks
/// are mined at and that every block is held to when the chain is validated.
#[derive(Debug)]
pub struct Blockchain {
    pub blocks: Vec<Block>,
    pub difficulty: usize,
}

/// A chain as plain values.
pub struct BlockchainView {
    pub blocks: Seq<BlockView>,
    pub difficulty: nat,
}

/// The views of a run of blocks, in order.
pub open spec fn blocks_view(blocks: Seq<Block>) -> Seq<BlockView> {
    Seq::new(blocks.len(), |i: int| blocks[i]@)
}

impl View for Blockchain {
    type V = BlockchainView;

    open spec fn view(&self) -> BlockchainView {
        BlockchainView { blocks: blocks_view(self.blocks@), difficulty: self.difficulty as nat }
    }
}

/// What the first block of every chain names as its predecessor.
pub open spec fn genesis_prev_hash() -> Seq<char> {
    "0"@
}

/// The first block of a chain created at `timestamp`: no transactions, and
/// the sentinel in place of a predecessor's digest.
pub open spec fn genesis_block(timestamp: int) -> BlockView {
    fresh_block(Seq::empty(), genesis_prev_hash(), timestamp)
}

/// The chain that `new` builds at `timestamp`.
pub open spec fn fresh_chain(difficulty: nat, timestamp: int) -> BlockchainView {
    BlockchainView { blocks: seq![genesis_block(timestamp)], difficulty }
}

/// What validation asks of a block other than the first: its stored digest is
/// the digest of its fields, it names the stored digest of the block before
/// it, and its digest meets the difficulty.
pub open spec fn block_accepted(prev: BlockView, block: BlockView, difficulty: nat) -> bool {
    &&& block.sealed()
    &&& block.prev_hash == prev.current_hash
    &&& has_zero_prefix(block.current_hash, difficulty)
}

impl BlockchainView {
    /// A chain is valid when it has a first block and every later block is
    /// accepted after the one before it, at the chain's present difficulty.
    pub open spec fn valid(self) -> bool {
        &&& self.blocks.len() > 0
        &&& forall|i: int|
            1 <= i < self.blocks.len() ==> block_accepted(
                self.blocks[i - 1],
                #[trigger] self.blocks[i],
                self.difficulty,
            )
    }

    /// The block that an append of `batch` at `timestamp` starts its search from.
    pub open spec fn candidate(self, batch: Seq<TxnView>, timestamp: int) -> BlockView
        recommends
            self.blocks.len() > 0,
    {
        fresh_block(batch, self.blocks.last().current_hash, timestamp)
    }
}

/// Why an append left the chain as it was.
#[derive(Debug)]
pub enum AppendError {
    /// The transaction at `index` is the first of the batch that is not admissible.
    Validation { index: usize },
    /// The chain has no block to build on.
    EmptyChain,
    /// No nonce gave the new block a digest that meets the difficulty.
    SearchExhausted,
}

/// A difficulty that was asked for and is not in the accepted range.
#[derive(Debug)]
pub struct RangeError {
    pub requested: usize,
}

/// The effect of appending `batch` at `timestamp`. A batch with an
/// inadmissible transaction is refused with the position of the first one; a
/// chain without blocks cannot grow; otherwise a block linked to the tip is
/// mined at the chain's difficulty and, if the search succeeds, placed at the
/// end. In every refusal the chain stays as it was.
pub open spec fn appended(
    before: BlockchainView,
    batch: Seq<TxnView>,
    timestamp: int,
    after: BlockchainView,
    result: Result<(), AppendError>,
) -> bool {
    match result {
        Err(AppendError::Validation { index }) => {
            &&& is_first_invalid(batch, index as int)
            &&& after == before
        },
        Err(AppendError::EmptyChain) => {
            &&& batch_valid(batch)
            &&& before.blocks.len() == 0
            &&& after == before
        },
        Err(AppendError::SearchExhausted) => {
            &&& batch_valid(batch)
            &&& before.blocks.len() > 0
            &&& before.candidate(batch, timestamp).no_solution(before.difficulty)
            &&& after == before
        },
        Ok(_) => {
            &&& batch_valid(batch)
            &&& before.blocks.len() > 0
            &&& after.difficulty == before.difficulty
            &&& after.blocks.len() == before.blocks.len() + 1
            &&& after.blocks.drop_last() == before.blocks
            &&& mined(
                before.candidate(batch, timestamp),
                before.difficulty,
                after.blocks.last(),
                true,
            )
        },
    }
}

impl Clone for Blockchain {
    fn clone(&self) -> (copy: Self)
        ensures
            copy@ == self@,
    {
        let mut blocks: Vec<Block> = Vec::new();
        let mut i: usize = 0;
        while i < self.blocks.len()
            invariant
                i <= self.blocks.len(),
                blocks.len() == i,
                forall|j: int| 0 <= j < i ==> blocks[j]@ == self.blocks[j]@,
            decreases self.blocks.len() - i,
        {
            blocks.push(self.blocks[i].clone());
            i += 1;
        }
        assert(blocks_view(blocks@) =~= blocks_view(self.blocks@));
        Blockchain { blocks, difficulty: self.difficulty }
    }
}

impl Blockchain {
    /// Starts a chain at `difficulty` with a genesis block stamped with the
    /// current time. The chain is valid.
    pub fn new(difficulty: usize) -> (chain: Self)
        ensures
            chain.blocks.len() == 1,
            chain@ == fresh_chain(difficulty as nat, chain.blocks[0].timestamp as int),
            chain.blocks[0].current_hash@.len() == DIGEST_LEN,
            chain@.valid(),
    {
        Blockchain::new_at(difficulty, unix_time())
    }

    /// Starts the chain that `new` starts when the clock reads `timestamp`.
    pub fn new_at(difficulty: usize, timestamp: i64) -> (chain: Self)
        ensures
            chain.blocks.len() == 1,
            chain.blocks[0].timestamp == timestamp,
            chain@ == fresh_chain(difficulty as nat, timestamp as int),
            chain.blocks[0].current_hash@.len() == DIGEST_LEN,
            chain@.valid(),
    {
        let genesis = Block::create_at(Vec::new(), String::from_str("0"), timestamp);
        let mut blocks: Vec<Block> = Vec::new();
        blocks.push(genesis);
        let chain = Blockchain { blocks, difficulty };
        assert(batch_view(Seq::<Txn>::empty()) =~= Seq::<TxnView>::empty());
        assert(chain@.blocks =~= seq![genesis_block(timestamp as int)]);
        chain
    }

    /// The most recent block, if the chain has any.
    pub fn latest_block(&self) -> (tip: Option<&Block>)
        ensures
            match tip {
                Some(block) => {
                    &&& self.blocks.len() > 0
                    &&& *block == self.blocks[self.blocks.len() - 1]
                },
                None => self.blocks.len() == 0,
            },
    {
        if self.blocks.len() == 0 {
            None
        } else {
            Some(&self.blocks[self.blocks.len() - 1])
        }
    }

    /// Appends a block that holds `transactions`, stamped with the current
    /// time. See [`Blockchain::add_block_at`] for what happens at a given time.
    pub fn add_block(&mut self, transactions: Vec<Txn>) -> (result: Result<(), AppendError>)
        ensures
            exists|timestamp: i64|
                appended(
                    old(self)@,
                    batch_view(transactions@),
                    timestamp as int,
                    final(self)@,
                    result,
                ),
            old(self)@.valid() ==> final(self)@.valid(),
    {
        let timestamp = unix_time();
        self.add_block_at(transactions, timestamp)
    }

    /// Appends a block that holds `transactions` and is stamped `timestamp`:
    /// checks the batch, links a new block to the tip, mines it at the chain's
    /// difficulty and places it at the end. The append succeeds exactly when
    /// the batch is admissible, the chain has a tip and the search finds a
    /// nonce. A valid chain stays valid.
    pub fn add_block_at(&mut self, transactions: Vec<Txn>, timestamp: i64) -> (result: Result<
        (),
        AppendError,
    >)
        ensures
            appended(
                old(self)@,
                batch_view(transactions@),
                timestamp as int,
                final(self)@,
                result,
            ),
            result is Ok <==> {
                &&& batch_valid(batch_view(transactions@))
                &&& old(self).blocks.len() > 0
                &&& !old(self)@.candidate(batch_view(transactions@), timestamp as int).no_solution(
                    old(self).difficulty as nat,
                )
            },
            result is Ok ==> final(self).blocks[final(self).blocks.len() - 1].current_hash@.len()
                == DIGEST_LEN,
            old(self)@.valid() ==> final(self)@.valid(),
    {
        if let Some(index) = first_invalid(&transactions) {
            return Err(AppendError::Validation { index });
        }
        let count = self.blocks.len();
        if count == 0 {
            return Err(AppendError::EmptyChain);
        }
        let previous_hash = self.blocks[count - 1].current_hash.clone();
        let mut new_block = Block::create_at(transactions, previous_hash, timestamp);
        let ghost candidate = new_block@;
        assert(candidate == old(self)@.candidate(batch_view(transactions@), timestamp as int));
        if !new_block.mine_block(self.difficulty) {
            return Err(AppendError::SearchExhausted);
        }
        let ghost block = new_block@;
        self.blocks.push(new_block);
        proof {
            let before = old(self)@;
            let after = self@;
            assert(after.blocks.drop_last() =~= before.blocks);
            assert(after.blocks.last() == block);
            assert(candidate.solves(before.difficulty, block.nonce));
            lemma_grown_chain(before, batch_view(transactions@), timestamp as int, after);
        }
        Ok(())
    }

    /// Checks the whole chain: it has a first block, and every later block
    /// holds the digest of its own fields, names the digest of the block before
    /// it, and meets the chain's present difficulty.
    pub fn validate(&self) -> (ok: bool)
        ensures
            ok == self@.valid(),
    {
        if self.blocks.len() == 0 {
            return false;
        }
        let mut i: usize = 1;
        while i < self.blocks.len()
            invariant
                1 <= i <= self.blocks.len(),
                forall|j: int|
                    1 <= j < i ==> block_accepted(
                        self@.blocks[j - 1],
                        #[trigger] self@.blocks[j],
                        self@.difficulty,
                    ),
            decreases self.blocks.len() - i,
        {
            let block = &self.blocks[i];
            let previous_block = &self.blocks[i - 1];
            assert(block@ == self@.blocks[i as int]);
            assert(previous_block@ == self@.blocks[i - 1]);
            if block.current_hash != block.calculate_hash() {
                return false;
            }
            if block.prev_hash != previous_block.current_hash {
                return false;
            }
            if !meets_difficulty(block.current_hash.as_str(), self.difficulty) {
                return false;
            }
            i += 1;
        }
        true
    }

    /// Replaces the difficulty by one in the accepted range. The blocks stay
    /// as they are: the new difficulty applies to later appends and to later
    /// validations. A difficulty out of range is refused and the chain stays
    /// as it was.
    pub fn update_difficulty(&mut self, new_difficulty: usize) -> (result: Result<(), RangeError>)
        ensures
            result is Ok <==> difficulty_in_range(new_difficulty),
            match result {
                Ok(_) => {
                    &&& final(self).difficulty == new_difficulty
                    &&& final(self).blocks == old(self).blocks
                },
                Err(error) => {
                    &&& *final(self) == *old(self)
                    &&& error.requested == new_difficulty
                },
            },
    {
        if !is_difficulty_in_range(new_difficulty) {
            return Err(RangeError { requested: new_difficulty });
        }
        self.difficulty = new_difficulty;
        Ok(())
    }
}

/// A chain fresh from `new` is valid, whatever its difficulty and timestamp.
pub proof fn lemma_fresh_chain_valid(difficulty: nat, timestamp: int)
    ensures
        fresh_chain(difficulty, timestamp).valid(),
{
}

/// A chain that grew by one mined block: the new block names the digest of
/// the block that was last before, its digest meets the difficulty, and the
/// chain is valid if it was valid before.
proof fn lemma_grown_chain(
    before: BlockchainView,
    batch: Seq<TxnView>,
    timestamp: int,
    after: BlockchainView,
)
    requires
        before.blocks.len() > 0,
        after.difficulty == before.difficulty,
        after.blocks.len() == before.blocks.len() + 1,
        after.blocks.drop_last() == before.blocks,
        mined(before.candidate(batch, timestamp), before.difficulty, after.blocks.last(), true),
    ensures
        after.blocks.last().prev_hash == before.blocks.last().current_hash,
        has_zero_prefix(after.blocks.last().current_hash, after.difficulty),
        before.valid() ==> after.valid(),
{
    let tip = after.blocks.last();
    let candidate = before.candidate(batch, timestamp);
    assert(tip.digest() == candidate.digest_at(tip.nonce));
    if before.valid() {
        assert forall|i: int| 1 <= i < after.blocks.len() implies block_accepted(
            after.blocks[i - 1],
            #[trigger] after.blocks[i],
            after.difficulty,
        ) by {
            if i < before.blocks.len() {
                assert(after.blocks[i] == after.blocks.drop_last()[i]);
                assert(after.blocks[i - 1] == after.blocks.drop_last()[i - 1]);
                assert(block_accepted(before.blocks[i - 1], before.blocks[i], before.difficulty));
            } else {
                assert(after.blocks[i - 1] == after.blocks.drop_last()[i - 1]);
            }
        }
    }
}

/// A chain that is valid at one difficulty is valid at every lower one. (At a
/// higher one it need not be: validation holds every block to the present
/// difficulty, whatever it was mined at.)
pub proof fn lemma_lower_difficulty_keeps_valid(chain: BlockchainView, lower: nat)
    requires
        chain.valid(),
        lower <= chain.difficulty,
    ensures
        (BlockchainView { difficulty: lower, ..chain }).valid(),
{
    let eased = BlockchainView { difficulty: lower, ..chain };
    assert forall|i: int| 1 <= i < eased.blocks.len() implies block_accepted(
        eased.blocks[i - 1],
        #[trigger] eased.blocks[i],
        lower,
    ) by {
        assert(block_accepted(chain.blocks[i - 1], chain.blocks[i], chain.difficulty));
    }
}

/// An append to a valid chain leaves a valid chain, whether it succeeds or
/// not. An admissible batch is refused only when the search finds no nonce;
/// when it is accepted, the new last block names the digest of the block that
/// was last before, and its own digest meets the difficulty. (A chain that was
/// not valid before is not made valid by growing.)
pub proof fn lemma_append_keeps_valid(
    before: BlockchainView,
    batch: Seq<TxnView>,
    timestamp: int,
    after: BlockchainView,
    result: Result<(), AppendError>,
)
    requires
        before.valid(),
        appended(before, batch, timestamp, after, result),
    ensures
        after.valid(),
        batch_valid(batch) ==> result is Ok || result == Err::<(), AppendError>(
            AppendError::SearchExhausted,
        ),
        result is Ok ==> {
            &&& after.blocks.len() == before.blocks.len() + 1
            &&& after.blocks.last().prev_hash == before.blocks.last().current_hash
            &&& has_zero_prefix(after.blocks.last().current_hash, after.difficulty)
        },
{
    match result {
        Ok(_) => {
            lemma_grown_chain(before, batch, timestamp, after);
        },
        Err(AppendError::Validation { index }) => {
            assert(!txn_valid(batch[index as int]));
        },
        Err(_) => {},
    }
}

} // verus!
