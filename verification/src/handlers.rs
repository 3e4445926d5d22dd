//! The operations that the service offers on its ledger. Each takes the
//! ledger as the caller holds it under its lock and says what to answer.

use vstd::prelude::*;
use crate::block::{Block, BlockView};
use crate::blockchain::{
    appended, fresh_chain, AppendError, Blockchain, BlockchainView, RangeError,
};
use crate::clock::unix_time;
use crate::config::difficulty_in_range;
use crate::transaction::{batch_view, Txn};

verus! {

/// A request for another difficulty.
#[derive(Debug)]
pub struct DifficultyUpdate {
    pub difficulty: usize,
}

/// What a successful append reports.
#[derive(Debug)]
pub struct AppendOutcome {
    /// Position of the new block in the chain.
    pub block_height: usize,
    /// Difficulty that the new block was mined at.
    pub current_difficulty: usize,
}

/// What a validation reports.
#[derive(Debug)]
pub struct ValidationReport {
    pub valid: bool,
    pub chain_length: usize,
    pub difficulty: usize,
}

/// The most recent block with its position and the present difficulty.
#[derive(Debug)]
pub struct LatestBlock {
    pub block: Block,
    pub block_number: usize,
    pub current_difficulty: usize,
}

/// What a change of difficulty reports.
#[derive(Debug)]
pub struct DifficultyChange {
    pub old_difficulty: usize,
    pub new_difficulty: usize,
}

/// The ledger that the service starts with.
#[derive(Debug)]
pub struct Startup {
    pub chain: Blockchain,
    /// Whether the ledger differs from what was loaded and has to be stored.
    pub store: bool,
}

/// A copy of the whole ledger.
pub fn get_chain(chain: &Blockchain) -> (snapshot: Blockchain)
    ensures
        snapshot@ == chain@,
{
    chain.clone()
}

/// Appends a block that holds `transactions`, stamped with the current time,
/// and reports where it stands. The chain changes as
/// [`Blockchain::add_block_at`] says for the time that the clock gave; on success
/// the caller has a changed ledger to store.
pub fn add_block(chain: &mut Blockchain, transactions: Vec<Txn>) -> (result: Result<
    AppendOutcome,
    AppendError,
>)
    ensures
        exists|timestamp: i64|
            appended(
                old(chain)@,
                batch_view(transactions@),
                timestamp as int,
                final(chain)@,
                outcome_erased(result),
            ),
        match result {
            Ok(outcome) => {
                &&& outcome.block_height == old(chain).blocks.len()
                &&& outcome.block_height == final(chain).blocks.len() - 1
                &&& outcome.current_difficulty == old(chain).difficulty
            },
            Err(_) => true,
        },
        old(chain)@.valid() ==> final(chain)@.valid(),
{
    add_block_at(chain, transactions, unix_time())
}

/// Appends as [`add_block`] does when the clock reads `timestamp`.
pub fn add_block_at(chain: &mut Blockchain, transactions: Vec<Txn>, timestamp: i64) -> (result:
    Result<AppendOutcome, AppendError>)
    ensures
        appended(
            old(chain)@,
            batch_view(transactions@),
            timestamp as int,
            final(chain)@,
            outcome_erased(result),
        ),
        match result {
            Ok(outcome) => {
                &&& outcome.block_height == old(chain).blocks.len()
                &&& outcome.block_height == final(chain).blocks.len() - 1
                &&& outcome.current_difficulty == old(chain).difficulty
            },
            Err(_) => true,
        },
        old(chain)@.valid() ==> final(chain)@.valid(),
{
    match chain.add_block_at(transactions, timestamp) {
        Ok(_) => Ok(
            AppendOutcome {
                block_height: chain.blocks.len() - 1,
                current_difficulty: chain.difficulty,
            },
        ),
        Err(error) => Err(error),
    }
}

/// An append's result without what it reports.
pub open spec fn outcome_erased(result: Result<AppendOutcome, AppendError>) -> Result<
    (),
    AppendError,
> {
    match result {
        Ok(_) => Ok(()),
        Err(error) => Err(error),
    }
}

/// Validates the chain and reports the verdict with the chain's length and
/// difficulty.
pub fn validate_chain(chain: &Blockchain) -> (report: ValidationReport)
    ensures
        report.valid == chain@.valid(),
        report.chain_length == chain.blocks.len(),
        report.difficulty == chain.difficulty,
{
    ValidationReport {
        valid: chain.validate(),
        chain_length: chain.blocks.len(),
        difficulty: chain.difficulty,
    }
}

/// The sentence that goes with a validation's verdict.
pub fn validation_message(valid: bool) -> (message: &'static str)
    ensures
        message@ == if valid {
            "Blockchain is valid and integrity verified"@
        } else {
            "Blockchain validation failed chain may be corrupted"@
        },
{
    if valid {
        "Blockchain is valid and integrity verified"
    } else {
        "Blockchain validation failed chain may be corrupted"
    }
}

/// A copy of the most recent block with its position, or nothing for a chain
/// without blocks.
pub fn latest_block(chain: &Blockchain) -> (latest: Option<LatestBlock>)
    ensures
        match latest {
            Some(tip) => {
                &&& chain.blocks.len() > 0
                &&& tip.block@ == chain@.blocks.last()
                &&& tip.block_number == chain.blocks.len() - 1
                &&& tip.current_difficulty == chain.difficulty
            },
            None => chain.blocks.len() == 0,
        },
{
    match chain.latest_block() {
        Some(block) => Some(
            LatestBlock {
                block: block.clone(),
                block_number: chain.blocks.len() - 1,
                current_difficulty: chain.difficulty,
            },
        ),
        None => None,
    }
}

/// The present difficulty and the number of blocks.
pub fn get_difficulty(chain: &Blockchain) -> (info: (usize, usize))
    ensures
        info.0 == chain.difficulty,
        info.1 == chain.blocks.len(),
{
    (chain.difficulty, chain.blocks.len())
}

/// Sets the difficulty that was requested if it is in the accepted range, and
/// reports the old and the new one; the caller then has a changed ledger to
/// store. A request out of range is refused and changes nothing.
pub fn update_difficulty(chain: &mut Blockchain, update: DifficultyUpdate) -> (result: Result<
    DifficultyChange,
    RangeError,
>)
    ensures
        result is Ok <==> difficulty_in_range(update.difficulty),
        match result {
            Ok(change) => {
                &&& final(chain).difficulty == update.difficulty
                &&& final(chain).blocks == old(chain).blocks
                &&& change.old_difficulty == old(chain).difficulty
                &&& change.new_difficulty == update.difficulty
            },
            Err(error) => {
                &&& *final(chain) == *old(chain)
                &&& error.requested == update.difficulty
            },
        },
{
    let old_difficulty = chain.difficulty;
    match chain.update_difficulty(update.difficulty) {
        Ok(_) => Ok(DifficultyChange { old_difficulty, new_difficulty: update.difficulty }),
        Err(error) => Err(error),
    }
}

/// Chooses the ledger to start with. A ledger that was loaded is kept and
/// brought to the configured difficulty if that is in the accepted range; it
/// has to be stored again if that changed it. A configured difficulty out of
/// range leaves a loaded ledger as it is. Where none was loaded a new chain is
/// started at the configured difficulty.
pub fn startup_chain(loaded: Option<Blockchain>, difficulty: usize) -> (startup: Startup)
    ensures
        match loaded {
            Some(chain) => {
                &&& startup.chain.blocks == chain.blocks
                &&& startup.chain.difficulty == if difficulty_in_range(difficulty) {
                    difficulty
                } else {
                    chain.difficulty
                }
                &&& startup.store == (startup.chain.difficulty != chain.difficulty)
            },
            None => {
                &&& startup.chain.difficulty == difficulty
                &&& startup.chain.blocks.len() == 1
                &&& startup.chain@ == fresh_chain(
                    difficulty as nat,
                    startup.chain.blocks[0].timestamp as int,
                )
                &&& !startup.store
            },
        },
{
    match loaded {
        Some(chain) => {
            let mut chain = chain;
            let store = chain.difficulty != difficulty && chain.update_difficulty(
                difficulty,
            ).is_ok();
            Startup { chain, store }
        },
        None => Startup { chain: Blockchain::new(difficulty), store: false },
    }
}

} // verus!
