//! Blocks, their digests and the proof-of-work search.

use vstd::prelude::*;
use vstd::string::*;
use crate::clock::unix_time;
use crate::digest::{digest_of, has_zero_prefix, meets_difficulty, text_digest, DIGEST_LEN};
use crate::text::{int_line, str_line, write_int, write_nat, write_str};
use crate::transaction::{batch_text, batch_view, clone_batch, write_batch, Txn, TxnView};

verus! {

/// One entry of the ledger: a batch of transactions, the digest of the entry
/// before it, and the nonce and digest that the proof-of-work search left.
#[derive(Debug)]
pub struct Block {
    pub transaction: Vec<Txn>,
    pub prev_hash: String,
    pub current_hash: String,
    pub timestamp: i64,
    pub nonce: u64,
}

/// A block as plain values.
pub struct BlockView {
    pub transaction: Seq<TxnView>,
    pub prev_hash: Seq<char>,
    pub current_hash: Seq<char>,
    pub timestamp: int,
    pub nonce: nat,
}

/// What the line of a block's timestamp begins with.
pub open spec fn timestamp_label() -> Seq<char> {
    "timestamp "@
}

/// What the line of the predecessor's digest begins with.
pub open spec fn prev_label() -> Seq<char> {
    "prev "@
}

/// What the line of the number of transactions begins with.
pub open spec fn count_label() -> Seq<char> {
    "transactions "@
}

/// What the line of the nonce begins with.
pub open spec fn nonce_label() -> Seq<char> {
    "nonce "@
}

/// The part of the digest input that the search leaves alone: the timestamp,
/// the predecessor's digest and the batch, each field on labelled lines.
pub open spec fn content_text(timestamp: int, prev_hash: Seq<char>, batch: Seq<TxnView>) -> Seq<
    char,
> {
    int_line(timestamp_label(), timestamp) + str_line(prev_label(), prev_hash) + int_line(
        count_label(),
        batch.len() as int,
    ) + batch_text(batch)
}

/// The digest input: the content followed by the nonce line.
pub open spec fn preimage_text(
    timestamp: int,
    prev_hash: Seq<char>,
    batch: Seq<TxnView>,
    nonce: nat,
) -> Seq<char> {
    content_text(timestamp, prev_hash, batch) + int_line(nonce_label(), nonce as int)
}

impl BlockView {
    /// The digest input of this block if its nonce were `nonce`.
    pub open spec fn preimage_at(self, nonce: nat) -> Seq<char> {
        preimage_text(self.timestamp, self.prev_hash, self.transaction, nonce)
    }

    /// The digest of this block if its nonce were `nonce`.
    pub open spec fn digest_at(self, nonce: nat) -> Seq<char> {
        text_digest(self.preimage_at(nonce))
    }

    /// The digest of the block's timestamp, batch, predecessor digest and
    /// nonce. The stored digest takes no part in it.
    pub open spec fn digest(self) -> Seq<char> {
        self.digest_at(self.nonce)
    }

    /// Whether the stored digest is the digest of the block's fields.
    pub open spec fn sealed(self) -> bool {
        self.current_hash == self.digest()
    }

    /// Whether `nonce` gives the block a digest with `difficulty` leading zeros.
    pub open spec fn solves(self, difficulty: nat, nonce: nat) -> bool {
        has_zero_prefix(self.digest_at(nonce), difficulty)
    }

    /// Whether `nonce` is the first solution at or after the block's own nonce.
    pub open spec fn first_solution(self, difficulty: nat, nonce: nat) -> bool {
        &&& self.nonce <= nonce <= u64::MAX
        &&& self.solves(difficulty, nonce)
        &&& forall|n: nat| self.nonce <= n < nonce ==> !self.solves(difficulty, n)
    }

    /// Whether no nonce from the block's own up to the largest one is a solution.
    pub open spec fn no_solution(self, difficulty: nat) -> bool {
        forall|n: nat| self.nonce <= n <= u64::MAX ==> !self.solves(difficulty, n)
    }
}

/// The block that `create` builds at `timestamp`: nonce zero, and the digest
/// that belongs to it.
pub open spec fn fresh_block(
    batch: Seq<TxnView>,
    prev_hash: Seq<char>,
    timestamp: int,
) -> BlockView {
    BlockView {
        transaction: batch,
        prev_hash,
        current_hash: text_digest(preimage_text(timestamp, prev_hash, batch, 0)),
        timestamp,
        nonce: 0,
    }
}

/// What a search at `difficulty` makes of the block `before`. The search
/// tries the nonces from the block's own upwards and stops at the first
/// solution; it reports failure at the largest nonce when there is none. Either
/// way the block holds the digest of the nonce it stopped at.
pub open spec fn mined(before: BlockView, difficulty: nat, after: BlockView, found: bool) -> bool {
    &&& after.transaction == before.transaction
    &&& after.prev_hash == before.prev_hash
    &&& after.timestamp == before.timestamp
    &&& after.current_hash == before.digest_at(after.nonce)
    &&& if found {
        before.first_solution(difficulty, after.nonce)
    } else {
        before.no_solution(difficulty) && after.nonce == u64::MAX
    }
}

impl View for Block {
    type V = BlockView;

    open spec fn view(&self) -> BlockView {
        BlockView {
            transaction: batch_view(self.transaction@),
            prev_hash: self.prev_hash@,
            current_hash: self.current_hash@,
            timestamp: self.timestamp as int,
            nonce: self.nonce as nat,
        }
    }
}

impl Clone for Block {
    fn clone(&self) -> (copy: Self)
        ensures
            copy@ == self@,
    {
        Block {
            transaction: clone_batch(&self.transaction),
            prev_hash: self.prev_hash.clone(),
            current_hash: self.current_hash.clone(),
            timestamp: self.timestamp,
            nonce: self.nonce,
        }
    }
}

/// Completes a digest input with its nonce line and digests it.
fn digest_with_nonce(content: &String, nonce: u64) -> (hash: String)
    ensures
        hash@ == text_digest(content@ + int_line(nonce_label(), nonce as int)),
        hash@.len() == DIGEST_LEN,
{
    let mut text = content.clone();
    text.append("nonce ");
    write_nat(&mut text, nonce);
    text.append("\n");
    proof {
        reveal_strlit("\n");
        assert(text@ =~= content@ + int_line(nonce_label(), nonce as int));
    }
    digest_of(text.as_str())
}

impl Block {
    /// Builds a block on `prev_hash` that holds `new_transaction`, stamped with
    /// the current time. Its nonce is zero and its digest is that of its fields.
    pub fn create(new_transaction: Vec<Txn>, prev_hash: String) -> (block: Self)
        ensures
            block@ == fresh_block(
                batch_view(new_transaction@),
                prev_hash@,
                block.timestamp as int,
            ),
            block@.sealed(),
            block.current_hash@.len() == DIGEST_LEN,
    {
        Block::create_at(new_transaction, prev_hash, unix_time())
    }

    /// Builds the block that `create` builds when the clock reads `timestamp`.
    pub fn create_at(new_transaction: Vec<Txn>, prev_hash: String, timestamp: i64) -> (block: Self)
        ensures
            block@ == fresh_block(batch_view(new_transaction@), prev_hash@, timestamp as int),
            block@.sealed(),
            block.current_hash@.len() == DIGEST_LEN,
    {
        let mut block = Block {
            timestamp,
            transaction: new_transaction,
            prev_hash,
            nonce: 0,
            current_hash: String::new(),
        };
        block.current_hash = block.calculate_hash();
        block
    }

    /// The lines of the digest input that come before the nonce.
    pub(crate) fn content(&self) -> (text: String)
        ensures
            text@ == content_text(self@.timestamp, self@.prev_hash, self@.transaction),
    {
        let mut text = String::new();
        text.append("timestamp ");
        write_int(&mut text, self.timestamp);
        text.append("\n");
        text.append("prev ");
        write_str(&mut text, self.prev_hash.as_str());
        text.append("\n");
        text.append("transactions ");
        write_nat(&mut text, self.transaction.len() as u64);
        text.append("\n");
        write_batch(&mut text, &self.transaction);
        proof {
            reveal_strlit("\n");
        }
        text
    }

    /// Computes the digest of the block's timestamp, batch, predecessor digest
    /// and nonce.
    pub fn calculate_hash(&self) -> (hash: String)
        ensures
            hash@ == self@.digest(),
            hash@.len() == DIGEST_LEN,
    {
        let content = self.content();
        digest_with_nonce(&content, self.nonce)
    }

    /// Searches, from the block's nonce upwards, for the first nonce whose
    /// digest starts with `difficulty` zero characters, and stores that nonce
    /// and digest in the block. Returns `false` when the nonces run out first.
    /// The block's own nonce is tried first, so a block that meets the
    /// difficulty keeps its nonce; at difficulty zero every block does.
    pub fn mine_block(&mut self, difficulty: usize) -> (found: bool)
        ensures
            mined(old(self)@, difficulty as nat, final(self)@, found),
            final(self)@.sealed(),
            final(self).current_hash@.len() == DIGEST_LEN,
            found ==> has_zero_prefix(final(self)@.current_hash, difficulty as nat),
            old(self)@.solves(difficulty as nat, old(self)@.nonce) ==> found && final(self).nonce
                == old(self).nonce,
            difficulty == 0 ==> found && final(self).nonce == old(self).nonce,
    {
        let content = self.content();
        let ghost before = self@;
        let mut nonce = self.nonce;
        loop
            invariant
                before.nonce <= nonce,
                content@ == content_text(before.timestamp, before.prev_hash, before.transaction),
                forall|n: nat| before.nonce <= n < nonce ==> !before.solves(difficulty as nat, n),
                self@ == before,
                before == old(self)@,
                difficulty == 0 ==> nonce == before.nonce,
            decreases u64::MAX - nonce,
        {
            let hash = digest_with_nonce(&content, nonce);
            let solved = meets_difficulty(hash.as_str(), difficulty);
            if solved || nonce == u64::MAX {
                self.current_hash = hash;
                self.nonce = nonce;
                return solved;
            }
            nonce += 1;
        }
    }
}

/// Two searches on the same block at the same difficulty end with the same
/// nonce, the same digest and the same verdict.
pub proof fn lemma_mining_deterministic(
    before: BlockView,
    difficulty: nat,
    first: BlockView,
    first_found: bool,
    second: BlockView,
    second_found: bool,
)
    requires
        mined(before, difficulty, first, first_found),
        mined(before, difficulty, second, second_found),
    ensures
        first_found == second_found,
        first.nonce == second.nonce,
        first.current_hash == second.current_hash,
        first == second,
{
}

/// A digest that meets a difficulty meets every lower one.
pub proof fn lemma_zero_prefix_weakens(hash: Seq<char>, lower: nat, higher: nat)
    requires
        lower <= higher,
        has_zero_prefix(hash, higher),
    ensures
        has_zero_prefix(hash, lower),
{
}

/// Raising the difficulty never shortens the search: on the same block, the
/// search at the higher difficulty stops at a nonce at least as large as the
/// search at the lower one, and a digest it finds has the higher number of
/// leading zeros.
pub proof fn lemma_difficulty_monotonic(
    before: BlockView,
    lower: nat,
    higher: nat,
    easy: BlockView,
    easy_found: bool,
    hard: BlockView,
    hard_found: bool,
)
    requires
        lower <= higher,
        mined(before, lower, easy, easy_found),
        mined(before, higher, hard, hard_found),
    ensures
        easy.nonce <= hard.nonce,
        hard_found ==> easy_found,
        hard_found ==> has_zero_prefix(hard.current_hash, higher),
{
    if hard_found {
        lemma_zero_prefix_weakens(before.digest_at(hard.nonce), lower, higher);
        assert(before.solves(lower, hard.nonce));
    }
}

} // verus!
