//! The stored form of the ledger: a text of labelled lines, and the reader
//! that takes it back. Writing and then reading gives the same ledger.

use vstd::prelude::*;
use vstd::string::*;
use crate::block::{
    content_text, count_label, nonce_label, preimage_text, prev_label, timestamp_label, Block,
    BlockView,
};
use crate::blockchain::{blocks_view, Blockchain, BlockchainView};
use crate::text::{
    expect, int_line, lemma_expect_prefix, lemma_expect_sound, lemma_parse_int_line,
    lemma_parse_int_line_sound, lemma_parse_str_line, lemma_parse_str_line_sound, parse_int_line,
    parse_str_line, read_int_line, read_lit, read_str_line, str_line, to_chars, write_nat,
    write_str,
};
use crate::transaction::{
    amount_label, batch_text, batch_view, from_label, to_label, txn_text, Txn, TxnView,
};

verus! {

/// What the line of a block's stored digest begins with.
pub open spec fn hash_label() -> Seq<char> {
    "hash "@
}

/// What the line of the difficulty begins with.
pub open spec fn difficulty_label() -> Seq<char> {
    "difficulty "@
}

/// What the line of the number of blocks begins with.
pub open spec fn blocks_label() -> Seq<char> {
    "blocks "@
}

/// The line that every stored ledger begins with.
pub open spec fn format_line() -> Seq<char> {
    "ledger 1\n"@
}

/// The record of a block: its digest input, then the digest it stores.
pub open spec fn block_text(block: BlockView) -> Seq<char> {
    preimage_text(block.timestamp, block.prev_hash, block.transaction, block.nonce) + str_line(
        hash_label(),
        block.current_hash,
    )
}

/// The records of a run of blocks, one after another.
pub open spec fn blocks_text(blocks: Seq<BlockView>) -> Seq<char>
    decreases blocks.len(),
{
    if blocks.len() == 0 {
        Seq::empty()
    } else {
        block_text(blocks[0]) + blocks_text(blocks.drop_first())
    }
}

/// The stored form of a ledger: the format line, the difficulty, the number
/// of blocks and the blocks.
pub open spec fn chain_text(chain: BlockchainView) -> Seq<char> {
    format_line() + int_line(difficulty_label(), chain.difficulty as int) + int_line(
        blocks_label(),
        chain.blocks.len() as int,
    ) + blocks_text(chain.blocks)
}

/// Whether the numbers of a transaction fit the fields that hold them.
pub open spec fn txn_storable(t: TxnView) -> bool {
    0 <= t.amount <= u64::MAX
}

/// Whether the numbers of a block fit the fields that hold them.
pub open spec fn block_storable(block: BlockView) -> bool {
    &&& i64::MIN <= block.timestamp <= i64::MAX
    &&& block.nonce <= u64::MAX
    &&& block.transaction.len() <= usize::MAX
    &&& forall|i: int|
        0 <= i < block.transaction.len() ==> txn_storable(#[trigger] block.transaction[i])
}

/// Whether the numbers of a ledger fit the fields that hold them. This is so
/// of the view of every `Blockchain`.
pub open spec fn chain_storable(chain: BlockchainView) -> bool {
    &&& chain.difficulty <= usize::MAX
    &&& chain.blocks.len() <= usize::MAX
    &&& forall|i: int| 0 <= i < chain.blocks.len() ==> block_storable(#[trigger] chain.blocks[i])
}

/// Reads the three lines of a transaction.
#[verifier::opaque]
pub open spec fn parse_txn(s: Seq<char>) -> Option<(TxnView, Seq<char>)> {
    match parse_int_line(amount_label(), s, 0, u64::MAX as int) {
        Some((amount, after_amount)) => match parse_str_line(from_label(), after_amount) {
            Some((from, after_from)) => match parse_str_line(to_label(), after_from) {
                Some((to, rest)) => Some((TxnView { amount, from, to }, rest)),
                None => None,
            },
            None => None,
        },
        None => None,
    }
}

/// Reads `count` transactions.
pub open spec fn parse_batch(s: Seq<char>, count: nat) -> Option<(Seq<TxnView>, Seq<char>)>
    decreases count,
{
    if count == 0 {
        Some((Seq::empty(), s))
    } else {
        match parse_txn(s) {
            Some((first, after_first)) => match parse_batch(after_first, (count - 1) as nat) {
                Some((others, rest)) => Some((seq![first] + others, rest)),
                None => None,
            },
            None => None,
        }
    }
}

/// Reads the record of a block.
#[verifier::opaque]
pub open spec fn parse_block(s: Seq<char>) -> Option<(BlockView, Seq<char>)> {
    match parse_int_line(timestamp_label(), s, i64::MIN as int, i64::MAX as int) {
        Some((timestamp, s1)) => match parse_str_line(prev_label(), s1) {
            Some((prev_hash, s2)) => match parse_int_line(count_label(), s2, 0, usize::MAX as int) {
                Some((count, s3)) => match parse_batch(s3, count as nat) {
                    Some((transaction, s4)) => match parse_int_line(
                        nonce_label(),
                        s4,
                        0,
                        u64::MAX as int,
                    ) {
                        Some((nonce, s5)) => match parse_str_line(hash_label(), s5) {
                            Some((current_hash, rest)) => Some(
                                (
                                    BlockView {
                                        transaction,
                                        prev_hash,
                                        current_hash,
                                        timestamp,
                                        nonce: nonce as nat,
                                    },
                                    rest,
                                ),
                            ),
                            None => None,
                        },
                        None => None,
                    },
                    None => None,
                },
                None => None,
            },
            None => None,
        },
        None => None,
    }
}

/// Reads the records of `count` blocks.
pub open spec fn parse_blocks(s: Seq<char>, count: nat) -> Option<(Seq<BlockView>, Seq<char>)>
    decreases count,
{
    if count == 0 {
        Some((Seq::empty(), s))
    } else {
        match parse_block(s) {
            Some((first, after_first)) => match parse_blocks(after_first, (count - 1) as nat) {
                Some((others, rest)) => Some((seq![first] + others, rest)),
                None => None,
            },
            None => None,
        }
    }
}

/// Reads a stored ledger: the whole text, with nothing left over.
#[verifier::opaque]
pub open spec fn parse_chain(s: Seq<char>) -> Option<BlockchainView> {
    match expect(s, format_line()) {
        Some(s1) => match parse_int_line(difficulty_label(), s1, 0, usize::MAX as int) {
            Some((difficulty, s2)) => match parse_int_line(
                blocks_label(),
                s2,
                0,
                usize::MAX as int,
            ) {
                Some((count, s3)) => match parse_blocks(s3, count as nat) {
                    Some((blocks, rest)) => if rest.len() == 0 {
                        Some(BlockchainView { blocks, difficulty: difficulty as nat })
                    } else {
                        None
                    },
                    None => None,
                },
                None => None,
            },
            None => None,
        },
        None => None,
    }
}

/// Reading gives back a transaction that was written.
pub proof fn lemma_parse_txn(t: TxnView, rest: Seq<char>)
    requires
        txn_storable(t),
    ensures
        parse_txn(txn_text(t) + rest) == Some((t, rest)),
{
    reveal(parse_txn);
    let to_line = str_line(to_label(), t.to) + rest;
    let from_line = str_line(from_label(), t.from) + to_line;
    assert(txn_text(t) + rest =~= int_line(amount_label(), t.amount) + from_line);
    lemma_parse_int_line(amount_label(), t.amount, from_line, 0, u64::MAX as int);
    lemma_parse_str_line(from_label(), t.from, to_line);
    lemma_parse_str_line(to_label(), t.to, rest);
}

/// Reading gives back a batch that was written.
pub proof fn lemma_parse_batch(batch: Seq<TxnView>, rest: Seq<char>)
    requires
        forall|i: int| 0 <= i < batch.len() ==> txn_storable(#[trigger] batch[i]),
    ensures
        parse_batch(batch_text(batch) + rest, batch.len()) == Some((batch, rest)),
    decreases batch.len(),
{
    if batch.len() > 0 {
        let others = batch.drop_first();
        let tail = batch_text(others) + rest;
        assert(batch_text(batch) + rest =~= txn_text(batch[0]) + tail);
        lemma_parse_txn(batch[0], tail);
        assert forall|i: int| 0 <= i < others.len() implies txn_storable(#[trigger] others[i]) by {}
        lemma_parse_batch(others, rest);
    }
}

/// The record of a block with something after it, seen as its first line
/// followed by all the rest.
proof fn lemma_block_text_lines(block: BlockView, rest: Seq<char>)
    ensures
        block_text(block) + rest == int_line(timestamp_label(), block.timestamp) + (str_line(
            prev_label(),
            block.prev_hash,
        ) + (int_line(count_label(), block.transaction.len() as int) + (batch_text(
            block.transaction,
        ) + (int_line(nonce_label(), block.nonce as int) + (str_line(
            hash_label(),
            block.current_hash,
        ) + rest))))),
{
    let a = int_line(timestamp_label(), block.timestamp);
    let b = str_line(prev_label(), block.prev_hash);
    let c = int_line(count_label(), block.transaction.len() as int);
    let d = batch_text(block.transaction);
    let e = int_line(nonce_label(), block.nonce as int);
    let f = str_line(hash_label(), block.current_hash);
    assert(block_text(block) == a + b + c + d + e + f);
}

/// Reading gives back a block that was written.
pub proof fn lemma_parse_block(block: BlockView, rest: Seq<char>)
    requires
        block_storable(block),
    ensures
        parse_block(block_text(block) + rest) == Some((block, rest)),
{
    reveal(parse_block);
    let s5 = str_line(hash_label(), block.current_hash) + rest;
    let s4 = int_line(nonce_label(), block.nonce as int) + s5;
    let s3 = batch_text(block.transaction) + s4;
    let s2 = int_line(count_label(), block.transaction.len() as int) + s3;
    let s1 = str_line(prev_label(), block.prev_hash) + s2;
    lemma_block_text_lines(block, rest);
    lemma_parse_int_line(
        timestamp_label(),
        block.timestamp,
        s1,
        i64::MIN as int,
        i64::MAX as int,
    );
    lemma_parse_str_line(prev_label(), block.prev_hash, s2);
    lemma_parse_int_line(count_label(), block.transaction.len() as int, s3, 0, usize::MAX as int);
    lemma_parse_batch(block.transaction, s4);
    lemma_parse_int_line(nonce_label(), block.nonce as int, s5, 0, u64::MAX as int);
    lemma_parse_str_line(hash_label(), block.current_hash, rest);
}

/// Reading gives back a run of blocks that was written.
pub proof fn lemma_parse_blocks(blocks: Seq<BlockView>, rest: Seq<char>)
    requires
        forall|i: int| 0 <= i < blocks.len() ==> block_storable(#[trigger] blocks[i]),
    ensures
        parse_blocks(blocks_text(blocks) + rest, blocks.len()) == Some((blocks, rest)),
    decreases blocks.len(),
{
    if blocks.len() > 0 {
        let others = blocks.drop_first();
        let tail = blocks_text(others) + rest;
        assert(blocks_text(blocks) + rest =~= block_text(blocks[0]) + tail);
        lemma_parse_block(blocks[0], tail);
        assert forall|i: int| 0 <= i < others.len() implies block_storable(
            #[trigger] others[i],
        ) by {}
        lemma_parse_blocks(others, rest);
        assert(seq![blocks[0]] + others =~= blocks);
    }
}

/// Reading the stored form of a ledger gives the ledger.
pub proof fn lemma_parse_chain(chain: BlockchainView)
    requires
        chain_storable(chain),
    ensures
        parse_chain(chain_text(chain)) == Some(chain),
{
    reveal(parse_chain);
    let s3 = blocks_text(chain.blocks);
    let s2 = int_line(blocks_label(), chain.blocks.len() as int) + s3;
    let s1 = int_line(difficulty_label(), chain.difficulty as int) + s2;
    assert(chain_text(chain) =~= format_line() + s1);
    lemma_expect_prefix(format_line(), s1);
    lemma_parse_int_line(difficulty_label(), chain.difficulty as int, s2, 0, usize::MAX as int);
    lemma_parse_int_line(blocks_label(), chain.blocks.len() as int, s3, 0, usize::MAX as int);
    lemma_parse_blocks(chain.blocks, Seq::empty());
}

/// What is read as a transaction is the record of that transaction.
pub proof fn lemma_parse_txn_sound(s: Seq<char>, t: TxnView, rest: Seq<char>)
    requires
        parse_txn(s) == Some((t, rest)),
    ensures
        s == txn_text(t) + rest,
        txn_storable(t),
        rest.len() < s.len(),
{
    reveal(parse_txn);
    match parse_int_line(amount_label(), s, 0, u64::MAX as int) {
        Some((amount, s1)) => {
            lemma_parse_int_line_sound(amount_label(), s, 0, u64::MAX as int, amount, s1);
            match parse_str_line(from_label(), s1) {
                Some((from, s2)) => {
                    lemma_parse_str_line_sound(from_label(), s1, from, s2);
                    lemma_parse_str_line_sound(to_label(), s2, t.to, rest);
                },
                None => {},
            }
        },
        None => {},
    }
}

/// What is read as a batch is the records of that batch.
pub proof fn lemma_parse_batch_sound(
    s: Seq<char>,
    count: nat,
    batch: Seq<TxnView>,
    rest: Seq<char>,
)
    requires
        parse_batch(s, count) == Some((batch, rest)),
    ensures
        s == batch_text(batch) + rest,
        batch.len() == count,
        forall|i: int| 0 <= i < batch.len() ==> txn_storable(#[trigger] batch[i]),
    decreases count,
{
    if count > 0 {
        match parse_txn(s) {
            Some((first, s1)) => {
                lemma_parse_txn_sound(s, first, s1);
                match parse_batch(s1, (count - 1) as nat) {
                    Some((others, s2)) => {
                        lemma_parse_batch_sound(s1, (count - 1) as nat, others, rest);
                        assert(batch.drop_first() =~= others);
                        assert forall|i: int| 0 <= i < batch.len() implies txn_storable(
                            #[trigger] batch[i],
                        ) by {
                            if i > 0 {
                                assert(batch[i] == others[i - 1]);
                            }
                        }
                    },
                    None => {},
                }
            },
            None => {},
        }
    }
}

/// What is read as a block is the record of that block.
pub proof fn lemma_parse_block_sound(s: Seq<char>, block: BlockView, rest: Seq<char>)
    requires
        parse_block(s) == Some((block, rest)),
    ensures
        s == block_text(block) + rest,
        block_storable(block),
        rest.len() < s.len(),
{
    reveal(parse_block);
    match parse_int_line(timestamp_label(), s, i64::MIN as int, i64::MAX as int) {
        Some((timestamp, s1)) => {
            lemma_parse_int_line_sound(
                timestamp_label(),
                s,
                i64::MIN as int,
                i64::MAX as int,
                timestamp,
                s1,
            );
            match parse_str_line(prev_label(), s1) {
                Some((prev_hash, s2)) => {
                    lemma_parse_str_line_sound(prev_label(), s1, prev_hash, s2);
                    match parse_int_line(count_label(), s2, 0, usize::MAX as int) {
                        Some((count, s3)) => {
                            lemma_parse_int_line_sound(
                                count_label(),
                                s2,
                                0,
                                usize::MAX as int,
                                count,
                                s3,
                            );
                            match parse_batch(s3, count as nat) {
                                Some((transaction, s4)) => {
                                    lemma_parse_batch_sound(s3, count as nat, transaction, s4);
                                    match parse_int_line(nonce_label(), s4, 0, u64::MAX as int) {
                                        Some((nonce, s5)) => {
                                            lemma_parse_int_line_sound(
                                                nonce_label(),
                                                s4,
                                                0,
                                                u64::MAX as int,
                                                nonce,
                                                s5,
                                            );
                                            lemma_parse_str_line_sound(
                                                hash_label(),
                                                s5,
                                                block.current_hash,
                                                rest,
                                            );
                                            lemma_block_text_lines(block, rest);
                                        },
                                        None => {},
                                    }
                                },
                                None => {},
                            }
                        },
                        None => {},
                    }
                },
                None => {},
            }
        },
        None => {},
    }
}

/// What is read as a run of blocks is the records of those blocks.
pub proof fn lemma_parse_blocks_sound(
    s: Seq<char>,
    count: nat,
    blocks: Seq<BlockView>,
    rest: Seq<char>,
)
    requires
        parse_blocks(s, count) == Some((blocks, rest)),
    ensures
        s == blocks_text(blocks) + rest,
        blocks.len() == count,
        forall|i: int| 0 <= i < blocks.len() ==> block_storable(#[trigger] blocks[i]),
    decreases count,
{
    if count > 0 {
        match parse_block(s) {
            Some((first, s1)) => {
                lemma_parse_block_sound(s, first, s1);
                match parse_blocks(s1, (count - 1) as nat) {
                    Some((others, s2)) => {
                        lemma_parse_blocks_sound(s1, (count - 1) as nat, others, rest);
                        assert(blocks.drop_first() =~= others);
                        assert(blocks[0] == first);
                        assert forall|i: int| 0 <= i < blocks.len() implies block_storable(
                            #[trigger] blocks[i],
                        ) by {
                            if i > 0 {
                                assert(blocks[i] == others[i - 1]);
                            }
                        }
                    },
                    None => {},
                }
            },
            None => {},
        }
    }
}

/// What is read as a ledger is the stored form of that ledger.
pub proof fn lemma_parse_chain_sound(s: Seq<char>, chain: BlockchainView)
    requires
        parse_chain(s) == Some(chain),
    ensures
        s == chain_text(chain),
        chain_storable(chain),
{
    reveal(parse_chain);
    match expect(s, format_line()) {
        Some(s1) => {
            lemma_expect_sound(s, format_line(), s1);
            match parse_int_line(difficulty_label(), s1, 0, usize::MAX as int) {
                Some((difficulty, s2)) => {
                    lemma_parse_int_line_sound(
                        difficulty_label(),
                        s1,
                        0,
                        usize::MAX as int,
                        difficulty,
                        s2,
                    );
                    match parse_int_line(blocks_label(), s2, 0, usize::MAX as int) {
                        Some((count, s3)) => {
                            lemma_parse_int_line_sound(
                                blocks_label(),
                                s2,
                                0,
                                usize::MAX as int,
                                count,
                                s3,
                            );
                            match parse_blocks(s3, count as nat) {
                                Some((blocks, rest)) => {
                                    lemma_parse_blocks_sound(s3, count as nat, blocks, rest);
                                },
                                None => {},
                            }
                        },
                        None => {},
                    }
                },
                None => {},
            }
        },
        None => {},
    }
}

/// No two ledgers have the same stored form.
pub proof fn lemma_chain_text_injective(a: BlockchainView, b: BlockchainView)
    requires
        chain_storable(a),
        chain_storable(b),
        chain_text(a) == chain_text(b),
    ensures
        a == b,
{
    lemma_parse_chain(a);
    lemma_parse_chain(b);
}

/// What reading `text` may answer: a ledger whose stored form is `text`, or a
/// refusal where `text` is the stored form of no ledger.
pub open spec fn decodes(text: Seq<char>, result: Result<Blockchain, DecodeError>) -> bool {
    match result {
        Ok(chain) => chain_text(chain@) == text,
        Err(_) => forall|chain: BlockchainView|
            chain_storable(chain) ==> #[trigger] chain_text(chain) != text,
    }
}

/// Reading the stored form of a ledger gives that ledger back: the same
/// difficulty and the same blocks, field for field and in the same order.
pub proof fn lemma_decode_encode(chain: Blockchain, result: Result<Blockchain, DecodeError>)
    requires
        decodes(chain_text(chain@), result),
    ensures
        result is Ok,
        result->Ok_0@ == chain@,
{
    lemma_chain_storable(chain);
    match result {
        Ok(read) => {
            lemma_chain_storable(read);
            lemma_chain_text_injective(read@, chain@);
        },
        Err(_) => {
        },
    }
}

/// Blocks with the same digest input have the same timestamp, predecessor
/// digest, batch and nonce: no two contents are written alike.
pub proof fn lemma_preimage_injective(a: BlockView, b: BlockView)
    requires
        block_storable(a),
        block_storable(b),
        a.preimage_at(a.nonce) == b.preimage_at(b.nonce),
    ensures
        a.timestamp == b.timestamp,
        a.prev_hash == b.prev_hash,
        a.transaction == b.transaction,
        a.nonce == b.nonce,
{
    let a_plain = BlockView { current_hash: Seq::empty(), ..a };
    let b_plain = BlockView { current_hash: Seq::empty(), ..b };
    lemma_parse_block(a_plain, Seq::empty());
    lemma_parse_block(b_plain, Seq::empty());
}

/// The numbers of a ledger that a program holds fit their fields.
pub proof fn lemma_chain_storable(chain: Blockchain)
    ensures
        chain_storable(chain@),
{
    assert(chain.blocks.len() == chain@.blocks.len());
    assert forall|i: int| 0 <= i < chain@.blocks.len() implies block_storable(
        #[trigger] chain@.blocks[i],
    ) by {
        lemma_block_storable(chain.blocks@[i]);
    }
}

/// The numbers of a block that a program holds fit their fields.
pub proof fn lemma_block_storable(block: Block)
    ensures
        block_storable(block@),
{
    assert(block.transaction.len() == block@.transaction.len());
}

/// Adding a block at the end of a run adds its record at the end of the run's
/// text.
pub proof fn lemma_blocks_text_push(blocks: Seq<BlockView>, block: BlockView)
    ensures
        blocks_text(blocks.push(block)) == blocks_text(blocks) + block_text(block),
    decreases blocks.len(),
{
    if blocks.len() == 0 {
        assert(blocks.push(block).drop_first() =~= Seq::<BlockView>::empty());
        assert(blocks_text(blocks.push(block)) =~= block_text(block) + blocks_text(Seq::empty()));
        assert(blocks_text(blocks.push(block)) =~= blocks_text(blocks) + block_text(block));
    } else {
        lemma_blocks_text_push(blocks.drop_first(), block);
        assert(blocks.push(block).drop_first() =~= blocks.drop_first().push(block));
    }
}

/// Why a text was not taken for a ledger.
#[derive(Debug)]
pub enum DecodeError {
    /// The text is not the stored form of any ledger.
    Malformed,
}

/// Appends the record of `block` to `out`.
fn write_block(out: &mut String, block: &Block)
    ensures
        final(out)@ == old(out)@ + block_text(block@),
{
    let content = block.content();
    out.append(content.as_str());
    out.append("nonce ");
    write_nat(out, block.nonce);
    out.append("\n");
    out.append("hash ");
    write_str(out, block.current_hash.as_str());
    out.append("\n");
    proof {
        reveal_strlit("\n");
    }
}

/// Reads the record of a transaction at `pos`.
fn read_txn(chars: &Vec<char>, pos: usize) -> (got: Option<(Txn, usize)>)
    requires
        pos <= chars.len(),
    ensures
        match (parse_txn(chars@.skip(pos as int)), got) {
            (Some((t, rest)), Some((read, p))) => {
                &&& read@ == t
                &&& pos < p <= chars.len()
                &&& chars@.skip(p as int) == rest
            },
            (None, None) => true,
            _ => false,
        },
{
    reveal(parse_txn);
    let (amount, after_amount) = match read_int_line(chars, pos, "amount ", 0, u64::MAX as i128) {
        Some(found) => found,
        None => { return None; },
    };
    let (from, after_from) = match read_str_line(chars, after_amount, "from ") {
        Some(found) => found,
        None => { return None; },
    };
    let (to, after_to) = match read_str_line(chars, after_from, "to ") {
        Some(found) => found,
        None => { return None; },
    };
    Some((Txn { amount: amount as u64, from, to }, after_to))
}

/// Reads the records of `count` transactions at `pos`.
fn read_batch(chars: &Vec<char>, pos: usize, count: usize) -> (got: Option<(Vec<Txn>, usize)>)
    requires
        pos <= chars.len(),
    ensures
        match (parse_batch(chars@.skip(pos as int), count as nat), got) {
            (Some((batch, rest)), Some((read, p))) => {
                &&& batch_view(read@) == batch
                &&& pos <= p <= chars.len()
                &&& chars@.skip(p as int) == rest
            },
            (None, None) => true,
            _ => false,
        },
{
    let ghost input = chars@.skip(pos as int);
    let mut batch: Vec<Txn> = Vec::new();
    let mut p: usize = pos;
    let mut k: usize = 0;
    while k < count
        invariant
            k <= count,
            pos <= p <= chars.len(),
            input == chars@.skip(pos as int),
            parse_batch(input, count as nat) == match parse_batch(
                chars@.skip(p as int),
                (count - k) as nat,
            ) {
                Some((others, rest)) => Some((batch_view(batch@) + others, rest)),
                None => None,
            },
        decreases count - k,
    {
        match read_txn(chars, p) {
            Some((t, q)) => {
                batch.push(t);
                p = q;
            },
            None => {
                return None;
            },
        }
        k += 1;
    }
    Some((batch, p))
}

/// Reads the record of a block at `pos`.
fn read_block(chars: &Vec<char>, pos: usize) -> (got: Option<(Block, usize)>)
    requires
        pos <= chars.len(),
    ensures
        match (parse_block(chars@.skip(pos as int)), got) {
            (Some((block, rest)), Some((read, p))) => {
                &&& read@ == block
                &&& pos < p <= chars.len()
                &&& chars@.skip(p as int) == rest
            },
            (None, None) => true,
            _ => false,
        },
{
    reveal(parse_block);
    let (timestamp, after_timestamp) = match read_int_line(
        chars,
        pos,
        "timestamp ",
        i64::MIN as i128,
        i64::MAX as i128,
    ) {
        Some(found) => found,
        None => { return None; },
    };
    let (prev_hash, after_prev) = match read_str_line(chars, after_timestamp, "prev ") {
        Some(found) => found,
        None => { return None; },
    };
    let (count, after_count) = match read_int_line(
        chars,
        after_prev,
        "transactions ",
        0,
        usize::MAX as i128,
    ) {
        Some(found) => found,
        None => { return None; },
    };
    let (transaction, after_batch) = match read_batch(chars, after_count, count as usize) {
        Some(found) => found,
        None => { return None; },
    };
    let (nonce, after_nonce) = match read_int_line(
        chars,
        after_batch,
        "nonce ",
        0,
        u64::MAX as i128,
    ) {
        Some(found) => found,
        None => { return None; },
    };
    let (current_hash, after_hash) = match read_str_line(chars, after_nonce, "hash ") {
        Some(found) => found,
        None => { return None; },
    };
    Some(
        (
            Block {
                transaction,
                prev_hash,
                current_hash,
                timestamp: timestamp as i64,
                nonce: nonce as u64,
            },
            after_hash,
        ),
    )
}

/// Reads the records of `count` blocks at `pos`.
fn read_blocks(chars: &Vec<char>, pos: usize, count: usize) -> (got: Option<(Vec<Block>, usize)>)
    requires
        pos <= chars.len(),
    ensures
        match (parse_blocks(chars@.skip(pos as int), count as nat), got) {
            (Some((blocks, rest)), Some((read, p))) => {
                &&& blocks_view(read@) == blocks
                &&& pos <= p <= chars.len()
                &&& chars@.skip(p as int) == rest
            },
            (None, None) => true,
            _ => false,
        },
{
    let ghost input = chars@.skip(pos as int);
    let mut blocks: Vec<Block> = Vec::new();
    let mut p: usize = pos;
    let mut k: usize = 0;
    while k < count
        invariant
            k <= count,
            pos <= p <= chars.len(),
            input == chars@.skip(pos as int),
            parse_blocks(input, count as nat) == match parse_blocks(
                chars@.skip(p as int),
                (count - k) as nat,
            ) {
                Some((others, rest)) => Some((blocks_view(blocks@) + others, rest)),
                None => None,
            },
        decreases count - k,
    {
        match read_block(chars, p) {
            Some((block, q)) => {
                blocks.push(block);
                p = q;
            },
            None => {
                return None;
            },
        }
        k += 1;
    }
    Some((blocks, p))
}

/// Reads a stored ledger that takes up all of `chars`.
fn read_chain(chars: &Vec<char>) -> (got: Option<Blockchain>)
    ensures
        match (parse_chain(chars@), got) {
            (Some(chain), Some(read)) => read@ == chain,
            (None, None) => true,
            _ => false,
        },
{
    reveal(parse_chain);
    assert(chars@.skip(0) =~= chars@);
    let after_format = match read_lit(chars, 0, "ledger 1\n") {
        Some(p) => p,
        None => { return None; },
    };
    let (difficulty, after_difficulty) = match read_int_line(
        chars,
        after_format,
        "difficulty ",
        0,
        usize::MAX as i128,
    ) {
        Some(found) => found,
        None => { return None; },
    };
    let (count, after_count) = match read_int_line(
        chars,
        after_difficulty,
        "blocks ",
        0,
        usize::MAX as i128,
    ) {
        Some(found) => found,
        None => { return None; },
    };
    let (blocks, end) = match read_blocks(chars, after_count, count as usize) {
        Some(found) => found,
        None => { return None; },
    };
    if end != chars.len() {
        return None;
    }
    Some(Blockchain { blocks, difficulty: difficulty as usize })
}

impl Blockchain {
    /// Writes the ledger in its stored form.
    pub fn encode(&self) -> (text: String)
        ensures
            text@ == chain_text(self@),
    {
        let mut text = String::new();
        text.append("ledger 1\n");
        text.append("difficulty ");
        write_nat(&mut text, self.difficulty as u64);
        text.append("\n");
        text.append("blocks ");
        write_nat(&mut text, self.blocks.len() as u64);
        text.append("\n");
        let ghost head = text@;
        let mut i: usize = 0;
        assert(self@.blocks.take(0) =~= Seq::<BlockView>::empty());
        while i < self.blocks.len()
            invariant
                i <= self.blocks.len(),
                text@ == head + blocks_text(self@.blocks.take(i as int)),
            decreases self.blocks.len() - i,
        {
            write_block(&mut text, &self.blocks[i]);
            proof {
                let views = self@.blocks;
                lemma_blocks_text_push(views.take(i as int), views[i as int]);
                assert(views.take(i as int).push(views[i as int]) =~= views.take(i + 1));
            }
            i += 1;
        }
        proof {
            reveal_strlit("\n");
            assert(self@.blocks.take(i as int) =~= self@.blocks);
        }
        text
    }

    /// Reads a ledger from its stored form. The answer is the one ledger that
    /// `encode` writes as `text`; a text that `encode` writes for no ledger
    /// is refused.
    pub fn decode(text: &str) -> (result: Result<Blockchain, DecodeError>)
        ensures
            decodes(text@, result),
    {
        let chars = to_chars(text);
        match read_chain(&chars) {
            Some(chain) => {
                proof {
                    lemma_parse_chain_sound(text@, chain@);
                }
                Ok(chain)
            },
            None => {
                assert forall|chain: BlockchainView|
                    chain_storable(chain) implies #[trigger] chain_text(chain) != text@ by {
                    lemma_parse_chain(chain);
                }
                Err(DecodeError::Malformed)
            },
        }
    }
}

} // verus!
