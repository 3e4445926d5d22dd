use blockchain_api::block::Block;
use blockchain_api::digest::digest_of;
use blockchain_api::transaction::Txn;

fn txn(amount: f64, from: &str, to: &str) -> Txn {
    Txn::new(amount.to_bits(), from.to_string(), to.to_string())
}

fn sample(timestamp: i64) -> Block {
    Block::create_at(
        vec![txn(10.0, "alice", "bob"), txn(3.0, "bob", "carol")],
        "abc".to_string(),
        timestamp,
    )
}

#[test]
fn create_at_stores_the_fields_and_the_digest() {
    let block = sample(1700000000);
    assert_eq!(block.timestamp, 1700000000);
    assert_eq!(block.prev_hash, "abc");
    assert_eq!(block.nonce, 0);
    assert_eq!(block.transaction.len(), 2);
    assert_eq!(block.transaction[1].from, "bob");
    assert_eq!(block.current_hash, block.calculate_hash());
}

#[test]
fn create_stamps_the_block_with_the_current_time() {
    let block = Block::create(vec![], "0".to_string());
    assert!(block.timestamp > 1_600_000_000);
    assert_eq!(block.nonce, 0);
    assert_eq!(block.prev_hash, "0");
    assert!(block.transaction.is_empty());
    assert_eq!(block.current_hash, block.calculate_hash());
}

#[test]
fn calculate_hash_digests_the_labelled_lines() {
    let block = Block::create_at(vec![txn(10.0, "alice", "bob")], "0".to_string(), 5);
    let input = "timestamp 5\nprev 1:0\ntransactions 1\namount 4621819117588971520\nfrom 5:alice\nto 3:bob\nnonce 0\n";
    assert_eq!(block.calculate_hash(), digest_of(input));
}

#[test]
fn calculate_hash_of_an_empty_block() {
    let mut block = Block::create_at(vec![], "".to_string(), -1);
    block.nonce = 42;
    let input = "timestamp -1\nprev 0:\ntransactions 0\nnonce 42\n";
    assert_eq!(block.calculate_hash(), digest_of(input));
}

#[test]
fn calculate_hash_ignores_the_stored_digest() {
    let mut block = sample(7);
    let before = block.calculate_hash();
    block.current_hash = "something else".to_string();
    assert_eq!(block.calculate_hash(), before);
}

#[test]
fn every_field_changes_the_digest() {
    let base = sample(7).calculate_hash();
    let mut other = sample(8);
    assert_ne!(other.calculate_hash(), base);
    other = sample(7);
    other.nonce = 1;
    assert_ne!(other.calculate_hash(), base);
    other = sample(7);
    other.prev_hash = "abd".to_string();
    assert_ne!(other.calculate_hash(), base);
    other = sample(7);
    other.transaction[0].amount = 11f64.to_bits();
    assert_ne!(other.calculate_hash(), base);
    other = sample(7);
    other.transaction.swap(0, 1);
    assert_ne!(other.calculate_hash(), base);
    other = sample(7);
    other.transaction.pop();
    assert_ne!(other.calculate_hash(), base);
}

#[test]
fn field_boundaries_do_not_blur() {
    let a = Block::create_at(vec![txn(1.0, "ab", "c")], "0".to_string(), 1);
    let b = Block::create_at(vec![txn(1.0, "a", "bc")], "0".to_string(), 1);
    assert_ne!(a.calculate_hash(), b.calculate_hash());
    let c = Block::create_at(vec![], "1".to_string(), 12);
    let d = Block::create_at(vec![], "21".to_string(), 1);
    assert_ne!(c.calculate_hash(), d.calculate_hash());
}

#[test]
fn mine_block_finds_the_first_nonce_that_meets_the_difficulty() {
    let mut block = sample(1700000000);
    assert!(block.mine_block(2));
    assert!(block.current_hash.starts_with("00"));
    assert_eq!(block.current_hash, block.calculate_hash());
    let found = block.nonce;
    for nonce in 0..found {
        let mut probe = sample(1700000000);
        probe.nonce = nonce;
        assert!(!probe.calculate_hash().starts_with("00"));
    }
}

#[test]
fn mine_block_leaves_the_content_alone() {
    let mut block = sample(99);
    assert!(block.mine_block(1));
    assert_eq!(block.timestamp, 99);
    assert_eq!(block.prev_hash, "abc");
    assert_eq!(block.transaction.len(), 2);
    assert_eq!(f64::from_bits(block.transaction[0].amount), 10.0);
    assert_eq!(block.transaction[0].from, "alice");
    assert_eq!(block.transaction[1].to, "carol");
}

#[test]
fn mine_block_at_difficulty_zero_keeps_the_nonce() {
    let mut block = sample(5);
    block.nonce = 17;
    assert!(block.mine_block(0));
    assert_eq!(block.nonce, 17);
    assert_eq!(block.current_hash, block.calculate_hash());
}

#[test]
fn mine_block_starts_from_the_nonce_it_finds() {
    let mut first = sample(5);
    assert!(first.mine_block(2));
    let mut later = sample(5);
    later.nonce = first.nonce + 1;
    assert!(later.mine_block(2));
    assert!(later.nonce > first.nonce);
    assert!(later.current_hash.starts_with("00"));
    let mut same = sample(5);
    same.nonce = first.nonce;
    assert!(same.mine_block(2));
    assert_eq!(same.nonce, first.nonce);
}

#[test]
fn mine_block_reports_failure_when_the_nonces_run_out() {
    let mut block = sample(5);
    block.nonce = u64::MAX - 3;
    // No digest has 65 leading zeros: it has 64 characters.
    assert!(!block.mine_block(65));
    assert_eq!(block.nonce, u64::MAX);
    assert_eq!(block.current_hash, block.calculate_hash());
    assert_eq!(block.prev_hash, "abc");
}

#[test]
fn mining_is_deterministic() {
    let mut first = sample(1700000000);
    let mut second = sample(1700000000);
    assert!(first.mine_block(2));
    assert!(second.mine_block(2));
    assert_eq!(first.nonce, second.nonce);
    assert_eq!(first.current_hash, second.current_hash);
}

#[test]
fn higher_difficulty_never_ends_at_a_smaller_nonce() {
    let mut nonces = Vec::new();
    for difficulty in 0..4usize {
        let mut block = sample(1700000000);
        assert!(block.mine_block(difficulty));
        assert!(block.current_hash.starts_with(&"0".repeat(difficulty)));
        nonces.push(block.nonce);
    }
    assert!(nonces[0] <= nonces[1]);
    assert!(nonces[1] <= nonces[2]);
    assert!(nonces[2] <= nonces[3]);
}

#[test]
fn clone_copies_every_field() {
    let mut block = sample(3);
    block.mine_block(1);
    let copy = block.clone();
    assert_eq!(copy.timestamp, block.timestamp);
    assert_eq!(copy.nonce, block.nonce);
    assert_eq!(copy.prev_hash, block.prev_hash);
    assert_eq!(copy.current_hash, block.current_hash);
    assert_eq!(copy.transaction.len(), 2);
    assert_eq!(f64::from_bits(copy.transaction[1].amount), 3.0);
}
