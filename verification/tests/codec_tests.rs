use blockchain_api::blockchain::Blockchain;
use blockchain_api::codec::DecodeError;
use blockchain_api::transaction::Txn;

fn txn(amount: f64, from: &str, to: &str) -> Txn {
    Txn::new(amount.to_bits(), from.to_string(), to.to_string())
}

fn grown() -> Blockchain {
    let mut chain = Blockchain::new_at(1, 1700000000);
    chain
        .add_block_at(vec![txn(10.0, "alice", "bob")], 1700000001)
        .unwrap();
    chain
        .add_block_at(vec![txn(4.0, "zoë", "a\nb"), txn(1.0, "carol", "5:x")], 1700000002)
        .unwrap();
    chain
}

fn assert_same(a: &Blockchain, b: &Blockchain) {
    assert_eq!(a.difficulty, b.difficulty);
    assert_eq!(a.blocks.len(), b.blocks.len());
    for (x, y) in a.blocks.iter().zip(b.blocks.iter()) {
        assert_eq!(x.timestamp, y.timestamp);
        assert_eq!(x.nonce, y.nonce);
        assert_eq!(x.prev_hash, y.prev_hash);
        assert_eq!(x.current_hash, y.current_hash);
        assert_eq!(x.transaction.len(), y.transaction.len());
        for (s, t) in x.transaction.iter().zip(y.transaction.iter()) {
            assert_eq!(s.amount, t.amount);
            assert_eq!(s.from, t.from);
            assert_eq!(s.to, t.to);
        }
    }
}

#[test]
fn encode_writes_labelled_lines() {
    let chain = Blockchain::new_at(2, 1700000000);
    let hash = chain.blocks[0].current_hash.clone();
    let expected = format!(
        "ledger 1\ndifficulty 2\nblocks 1\ntimestamp 1700000000\nprev 1:0\ntransactions 0\nnonce 0\nhash 64:{}\n",
        hash
    );
    assert_eq!(chain.encode(), expected);
}

#[test]
fn encode_writes_the_transactions_of_each_block() {
    let mut chain = Blockchain { blocks: vec![], difficulty: 3 };
    assert_eq!(chain.encode(), "ledger 1\ndifficulty 3\nblocks 0\n");
    chain.blocks.push(blockchain_api::block::Block {
        transaction: vec![txn(-2.0, "a", "")],
        prev_hash: "p".to_string(),
        current_hash: "h".to_string(),
        timestamp: -9,
        nonce: 8,
    });
    assert_eq!(
        chain.encode(),
        "ledger 1\ndifficulty 3\nblocks 1\ntimestamp -9\nprev 1:p\ntransactions 1\namount 13835058055282163712\nfrom 1:a\nto 0:\nnonce 8\nhash 1:h\n"
    );
}

#[test]
fn decode_gives_back_what_encode_wrote() {
    let chain = grown();
    let read = Blockchain::decode(&chain.encode()).unwrap();
    assert_same(&chain, &read);
    assert!(read.validate());
    assert_eq!(read.encode(), chain.encode());
}

#[test]
fn decode_gives_back_extreme_values() {
    let chain = Blockchain {
        blocks: vec![blockchain_api::block::Block {
            transaction: vec![txn(f64::MIN, "", "\n\n"), txn(f64::NAN, "ledger 1\n", "0")],
            prev_hash: "".to_string(),
            current_hash: "hash 3:abc\n".to_string(),
            timestamp: i64::MIN,
            nonce: u64::MAX,
        }],
        difficulty: usize::MAX,
    };
    let read = Blockchain::decode(&chain.encode()).unwrap();
    assert_same(&chain, &read);
}

#[test]
fn decode_gives_back_a_chain_without_blocks() {
    let chain = Blockchain { blocks: vec![], difficulty: 0 };
    let read = Blockchain::decode(&chain.encode()).unwrap();
    assert_same(&chain, &read);
    assert!(!read.validate());
}

#[test]
fn decode_reads_a_hand_written_ledger() {
    let text = "ledger 1\ndifficulty 4\nblocks 2\n\
        timestamp 1\nprev 1:0\ntransactions 0\nnonce 0\nhash 2:aa\n\
        timestamp 2\nprev 2:aa\ntransactions 1\namount 4621819117588971520\nfrom 5:alice\nto 3:bob\nnonce 9\nhash 2:bb\n";
    let chain = Blockchain::decode(text).unwrap();
    assert_eq!(chain.difficulty, 4);
    assert_eq!(chain.blocks.len(), 2);
    assert_eq!(chain.blocks[0].prev_hash, "0");
    assert_eq!(chain.blocks[1].prev_hash, "aa");
    assert_eq!(chain.blocks[1].current_hash, "bb");
    assert_eq!(chain.blocks[1].nonce, 9);
    assert_eq!(chain.blocks[1].timestamp, 2);
    assert_eq!(f64::from_bits(chain.blocks[1].transaction[0].amount), 10.0);
    assert_eq!(chain.blocks[1].transaction[0].from, "alice");
    assert_eq!(chain.blocks[1].transaction[0].to, "bob");
    assert!(!chain.validate());
}

fn refused(text: &str) -> bool {
    matches!(Blockchain::decode(text), Err(DecodeError::Malformed))
}

#[test]
fn decode_refuses_text_that_is_no_ledger() {
    assert!(refused(""));
    assert!(refused("{\"blocks\": [], \"difficulty\": 2}"));
    assert!(refused("ledger 1\n"));
    assert!(refused("ledger 2\ndifficulty 3\nblocks 0\n"));
    assert!(refused("ledger 1\ndifficulty 3\n"));
    assert!(refused("ledger 1\ndifficulty x\nblocks 0\n"));
    assert!(refused("ledger 1\ndifficulty -1\nblocks 0\n"));
    assert!(refused("ledger 1\nblocks 0\ndifficulty 3\n"));
    assert!(refused(" ledger 1\ndifficulty 3\nblocks 0\n"));
}

#[test]
fn decode_refuses_a_wrong_count_or_trailing_text() {
    let good = "ledger 1\ndifficulty 3\nblocks 1\ntimestamp 1\nprev 1:0\ntransactions 0\nnonce 0\nhash 2:aa\n";
    assert!(Blockchain::decode(good).is_ok());
    assert!(refused(&good.replace("blocks 1", "blocks 2")));
    assert!(refused(&good.replace("blocks 1", "blocks 0")));
    assert!(refused(&good.replace("transactions 0", "transactions 1")));
    assert!(refused(&format!("{}\n", good)));
    assert!(refused(&format!("{}x", good)));
    assert!(refused(&good[..good.len() - 1]));
    assert!(refused(&good.replace("hash 2:aa", "hash 3:aa")));
    assert!(refused(&good.replace("nonce 0", "nonce -1")));
    assert!(refused(&good.replace("nonce 0", "nonce 18446744073709551616")));
    assert!(refused(&good.replace("timestamp 1", "timestamp 9223372036854775808")));
    assert!(refused(&good.replace("prev 1:0", "previous 1:0")));
    let with_txn = good.replace(
        "transactions 0\n",
        "transactions 1\namount 4621819117588971520\nfrom 1:a\nto 1:b\n",
    );
    assert!(Blockchain::decode(&with_txn).is_ok());
    assert!(refused(&with_txn.replace("amount 4621819117588971520", "amount -1")));
    assert!(refused(&with_txn.replace("amount 4621819117588971520", "amount 10.5")));
    assert!(refused(
        &with_txn.replace("amount 4621819117588971520", "amount 18446744073709551616")
    ));
    assert!(Blockchain::decode(
        &with_txn.replace("amount 4621819117588971520", "amount 18446744073709551615")
    )
    .is_ok());
}

#[test]
fn decode_refuses_numbers_that_encode_does_not_write() {
    let good = "ledger 1\ndifficulty 3\nblocks 1\ntimestamp 1\nprev 1:0\ntransactions 0\nnonce 0\nhash 2:aa\n";
    assert!(refused(&good.replace("difficulty 3", "difficulty 03")));
    assert!(refused(&good.replace("difficulty 3", "difficulty +3")));
    assert!(refused(&good.replace("timestamp 1", "timestamp -0")));
    assert!(refused(&good.replace("timestamp 1", "timestamp 01")));
    assert!(refused(&good.replace("prev 1:0", "prev 01:0")));
    assert!(refused(&good.replace("nonce 0", "nonce 00")));
    assert!(Blockchain::decode(&good.replace("timestamp 1", "timestamp -1")).is_ok());
}

#[test]
fn decode_accepts_only_what_encode_would_write_again() {
    let text = "ledger 1\ndifficulty 4\nblocks 1\ntimestamp -12\nprev 3:a:b\ntransactions 1\namount 0\nfrom 0:\nto 2:\n\n\nnonce 7\nhash 0:\n";
    let chain = Blockchain::decode(text).unwrap();
    assert_eq!(chain.encode(), text);
}

#[test]
fn decode_refuses_a_count_that_the_text_cannot_hold() {
    assert!(refused("ledger 1\ndifficulty 3\nblocks 18446744073709551615\n"));
    assert!(refused("ledger 1\ndifficulty 3\nblocks 99999999999999999999999\n"));
}
