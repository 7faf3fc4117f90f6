use blockchain_demo::account::Account;
use blockchain_demo::block::Block;
use blockchain_demo::blockchain::BlockChain;
use blockchain_demo::key::MyKey;
use blockchain_demo::miner::Host;
use blockchain_demo::pow::ProofOfWork;
use blockchain_demo::transaction::Transaction;
use blockchain_demo::ChainError;

#[test]
fn merkle_empty_is_zero() {
    let root = Block::merkle_root(vec![]);
    assert_eq!(root, [0u8; 32]);
}

#[test]
fn merkle_recompute_invariant() {
    let hashes = vec![[1u8; 32], [2u8; 32], [3u8; 32]];
    let r1 = Block::merkle_root(hashes.clone());
    let r2 = Block::merkle_root(hashes);
    assert_eq!(r1, r2);
}

#[test]
fn merkle_sensitive_to_content_and_order() {
    let r_ab = Block::merkle_root(vec![[1u8; 32], [2u8; 32]]);
    let r_ba = Block::merkle_root(vec![[2u8; 32], [1u8; 32]]);
    let mut changed = [1u8; 32];
    changed[31] = 7;
    let r_ab2 = Block::merkle_root(vec![changed, [2u8; 32]]);
    assert_ne!(r_ab, r_ba);
    assert_ne!(r_ab, r_ab2);
}

#[test]
fn merkle_odd_count_duplicates_last() {
    // With three leaves the last is paired with itself: the root over
    // [a, b, c] equals the root over the two inner digests, which is
    // what reduction over [a, b, c, c] gives at the first level too.
    let a = [1u8; 32];
    let b = [2u8; 32];
    let c = [3u8; 32];
    let r3 = Block::merkle_root(vec![a, b, c]);
    let r4 = Block::merkle_root(vec![a, b, c, c]);
    assert_eq!(r3, r4);
}

#[test]
fn decode_target_is_pure() {
    let p1 = ProofOfWork::new(0x2100FFFF);
    let p2 = ProofOfWork::new(0x2100FFFF);
    assert_eq!(p1.target, p2.target);
}

#[test]
fn decode_target_known_value() {
    // bits = 0x2100FFFF: exponent 0x21, mantissa 0x00FFFF, so the
    // target is 0xFFFF shifted left by 8*(0x21-3) = 240 bits: two 0xFF
    // bytes at the top of the 256-bit value.
    let p = ProofOfWork::new(0x2100FFFF);
    let mut expected = [0u8; 32];
    expected[0] = 0xFF;
    expected[1] = 0xFF;
    assert_eq!(p.target, expected);
}

#[test]
fn decode_target_low_exponent_shifts_right() {
    // exponent 2 shifts the mantissa right one byte: 0x0404CB >> 8.
    let p = ProofOfWork::new(0x020404CB);
    let mut expected = [0u8; 32];
    expected[30] = 0x04;
    expected[31] = 0x04;
    assert_eq!(p.target, expected);
}

#[test]
fn decode_target_rejects_high_mantissa() {
    // A mantissa above 0x7FFFFF carries the sign bit: the target
    // degenerates to zero.
    let p = ProofOfWork::new(0x03FFFFFF);
    assert_eq!(p.target, [0u8; 32]);
}

#[test]
fn transaction_round_trip() {
    let tx = Transaction::new([2u8; 32], [3u8; 32], 3, 1, 7, "sign".to_string());
    let bytes = tx.encode();
    let de = blockchain_demo::transaction::decode_transaction(&bytes).unwrap();
    assert_eq!(de.hash, tx.hash);
    assert_eq!(de.from, tx.from);
    assert_eq!(de.to, tx.to);
    assert_eq!(de.amount, 3);
    assert_eq!(de.fee, 1);
    assert_eq!(de.nonce, 7);
    assert_eq!(de.sign, "sign");
}

#[test]
fn transaction_decode_rejects_truncated() {
    let tx = Transaction::new([2u8; 32], [3u8; 32], 3, 1, 7, "sign".to_string());
    let mut bytes = tx.encode();
    bytes.pop();
    assert!(blockchain_demo::transaction::decode_transaction(&bytes).is_none());
}

#[test]
fn account_round_trip() {
    let mut account = Account::new([1u8; 32], [9u8; 32]);
    account.balance = 42;
    let bytes = account.encode();
    let de = blockchain_demo::account::decode_account(&bytes).unwrap();
    assert_eq!(de.nonce, account.nonce);
    assert_eq!(de.balance, 42);
    assert_eq!(de.address, account.address);
    assert_eq!(de.hash, account.hash);
}

#[test]
fn block_round_trip() {
    let tx1 = Transaction::new([2u8; 32], [3u8; 32], 3, 1, 0, "a".to_string());
    let tx2 = Transaction::new([4u8; 32], [5u8; 32], 5, 1, 0, String::new());
    let block = Block::new_with_time(vec![tx1, tx2], [7u8; 32], 0x2100FFFF, 4, 1_700_000_000);
    let bytes = block.encode();
    let de = blockchain_demo::block::decode_block(&bytes).unwrap();
    assert_eq!(de.header.height, 4);
    assert_eq!(de.header.time, 1_700_000_000);
    assert_eq!(de.header.tx_hash, block.header.tx_hash);
    assert_eq!(de.header.pre_hash, [7u8; 32]);
    assert_eq!(de.header.bits, 0x2100FFFF);
    assert_eq!(de.header.nonce, 0);
    assert_eq!(de.hash, block.hash);
    assert_eq!(de.transactions.len(), 2);
    assert_eq!(de.transactions[0].hash, block.transactions[0].hash);
    assert_eq!(de.transactions[0].sign, "a");
    assert_eq!(de.transactions[1].amount, 5);
    assert_eq!(de.transactions[1].sign, "");
}

#[test]
fn block_decode_rejects_trailing_bytes() {
    let tx = Transaction::new([2u8; 32], [3u8; 32], 3, 1, 0, "a".to_string());
    let block = Block::new_with_time(vec![tx], [0u8; 32], 0x2100FFFF, 1, 0);
    let mut bytes = block.encode();
    bytes.push(0);
    assert!(blockchain_demo::block::decode_block(&bytes).is_none());
}

#[test]
fn mining_is_deterministic() {
    let bits = 0x2100FFFF;
    let make = || {
        let tx = Transaction::new([2u8; 32], [3u8; 32], 3, 1, 0, "x".to_string());
        Block::new_with_time(vec![tx], [1u8; 32], bits, 1, 1_700_000_000)
    };
    let pow = ProofOfWork::new(bits);
    let mut b1 = make();
    let mut b2 = make();
    assert!(pow.run(&mut b1).is_ok());
    assert!(pow.run(&mut b2).is_ok());
    assert_eq!(b1.header.nonce, b2.header.nonce);
    assert_eq!(b1.hash, b2.hash);
}

#[test]
fn chain_height_monotonic_end_to_end() {
    // Two transactions, each mined into its own block on the genesis
    // chain: tail height 2, three blocks genesis-first in increasing
    // height order, and each mined block's root recomputable from its
    // own two transactions.
    let mut host = Host::new();
    assert_eq!(host.blockchain.curr_height, 0);

    let tx = Transaction::new([2u8; 32], [3u8; 32], 3, 1, 0, String::new());
    let b1 = host.mining(&mut vec![tx]).unwrap();
    assert_eq!(host.blockchain.curr_height, 1);

    let tx = Transaction::new([4u8; 32], [5u8; 32], 5, 1, 0, String::new());
    let b2 = host.mining(&mut vec![tx]).unwrap();
    assert_eq!(host.blockchain.curr_height, 2);

    let blocks = host.blockchain.traverse_from_tail().unwrap();
    assert_eq!(blocks.len(), 3);
    assert_eq!(blocks[0].header.height, 0);
    assert_eq!(blocks[1].header.height, 1);
    assert_eq!(blocks[2].header.height, 2);
    assert_eq!(blocks[0].hash, host.blockchain.genesis_hash);
    assert_eq!(blocks[1].header.pre_hash, blocks[0].hash);
    assert_eq!(blocks[2].header.pre_hash, blocks[1].hash);
    assert_eq!(blocks[1].hash, b1.hash);
    assert_eq!(blocks[2].hash, b2.hash);

    for b in [&b1, &b2] {
        assert_eq!(b.transactions.len(), 2);
        assert!(b.transactions[0].is_coinbase());
        let root =
            Block::merkle_root(vec![b.transactions[0].hash, b.transactions[1].hash]);
        assert_eq!(b.header.tx_hash, root);
    }
}

#[test]
fn mined_block_prepends_reward() {
    let mut host = Host::new();
    let tx = Transaction::new([2u8; 32], [3u8; 32], 3, 1, 0, String::new());
    let submitted_hash = tx.hash;
    let b = host.mining(&mut vec![tx]).unwrap();
    assert_eq!(b.transactions.len(), 2);
    assert_eq!(b.transactions[0].from, [0u8; 32]);
    assert_eq!(b.transactions[0].to, [8u8; 32]);
    assert_eq!(b.transactions[0].amount, 0);
    assert_eq!(b.transactions[0].fee, 0);
    assert_eq!(b.transactions[0].sign, "coinbase");
    assert_eq!(b.transactions[1].hash, submitted_hash);
}

#[test]
fn insufficient_funds_leaves_account_unchanged() {
    let mut account = Account::new([1u8; 32], [9u8; 32]);
    account.balance = 10;
    let hash_before = account.hash;
    let r = account.send_to([5u8; 32], 8, 5);
    assert_eq!(r.unwrap_err(), ChainError::InsufficientFunds);
    assert_eq!(account.balance, 10);
    assert_eq!(account.nonce, 0);
    assert_eq!(account.hash, hash_before);
}

#[test]
fn spend_debits_balance_and_steps_nonce() {
    let mut account = Account::new([1u8; 32], [9u8; 32]);
    account.balance = 10;
    let tx = account.send_to([5u8; 32], 8, 2).unwrap();
    assert_eq!(account.balance, 0);
    assert_eq!(account.nonce, 1);
    assert_eq!(tx.from, [1u8; 32]);
    assert_eq!(tx.to, [5u8; 32]);
    assert_eq!(tx.amount, 8);
    assert_eq!(tx.fee, 2);
    assert_eq!(tx.nonce, 1);
    assert_eq!(tx.sign, "sign");
}

#[test]
fn coinbase_test_requires_zero_sender() {
    let reward = Transaction::new([0u8; 32], [8u8; 32], 0, 0, 0, "coinbase".to_string());
    assert!(reward.is_coinbase());
    let ordinary = Transaction::new([2u8; 32], [3u8; 32], 1, 0, 0, String::new());
    assert!(!ordinary.is_coinbase());
    let burn = Transaction::new([0u8; 32], [0u8; 32], 0, 0, 0, String::new());
    assert!(!burn.is_coinbase());
}

#[test]
fn broken_chain_is_reported() {
    // A block that claims a height above the tail but links to a parent
    // nobody stored moves the cursor without extending the chain:
    // traversal must fail rather than fabricate a history.
    let mut chain = BlockChain::new_blockchain();
    let tx = Transaction::new([2u8; 32], [3u8; 32], 1, 0, 0, String::new());
    let mut orphan = Block::new_with_time(vec![tx], [0xAAu8; 32], 0x2100FFFF, 5, 0);
    orphan.hash = [0xBBu8; 32];
    assert!(chain.input_block(orphan).is_ok());
    assert_eq!(chain.curr_height, 5);
    let r = chain.traverse_from_tail();
    assert_eq!(r.unwrap_err(), ChainError::BrokenChain);
}

#[test]
fn storage_keys() {
    let hash = [0x5Au8; 32];
    let k = MyKey::for_block_hash(&hash);
    assert_eq!(k.val, hash);

    let tail = MyKey::for_tail();
    let mut expected = [0u8; 32];
    expected[28..].copy_from_slice(b"tail");
    assert_eq!(tail.val, expected);

    let k2 = MyKey::from_u8(&hash);
    assert_eq!(k2.as_slice(), &hash);
}

#[test]
fn genesis_block_shape() {
    let genesis = BlockChain::get_genesis_block();
    assert_eq!(genesis.header.height, 0);
    assert_eq!(genesis.header.pre_hash, [0u8; 32]);
    assert_eq!(genesis.header.bits, 0x2100FFFF);
    assert_eq!(genesis.header.nonce, 0);
    assert_eq!(genesis.transactions.len(), 1);
    assert_eq!(genesis.transactions[0].sign, "This is genesis");
    assert_eq!(genesis.transactions[0].from, [0u8; 32]);
    assert_eq!(genesis.transactions[0].to, [0u8; 32]);
    assert_eq!(genesis.transactions[0].amount, 0);
    assert_eq!(genesis.transactions[0].fee, 0);
    assert_eq!(genesis.transactions[0].nonce, 0);
    let root = Block::merkle_root(vec![genesis.transactions[0].hash]);
    assert_eq!(genesis.header.tx_hash, root);
    assert_ne!(genesis.hash, [0u8; 32]);
}

#[test]
fn digest_known_answers() {
    // SHA3-256 of the empty string and of "abc", as published.
    let empty = blockchain_demo::coder::get_hash(&[]);
    let expected_empty: [u8; 32] = [
        0xa7, 0xff, 0xc6, 0xf8, 0xbf, 0x1e, 0xd7, 0x66, 0x51, 0xc1, 0x47, 0x56, 0xa0, 0x61, 0xd6,
        0x62, 0xf5, 0x80, 0xff, 0x4d, 0xe4, 0x3b, 0x49, 0xfa, 0x82, 0xd8, 0x0a, 0x4b, 0x80, 0xf8,
        0x43, 0x4a,
    ];
    assert_eq!(empty, expected_empty);

    let abc = blockchain_demo::coder::get_hash(b"abc");
    let expected_abc: [u8; 32] = [
        0x3a, 0x98, 0x5d, 0xa7, 0x4f, 0xe2, 0x25, 0xb2, 0x04, 0x5c, 0x17, 0x2d, 0x6b, 0xd3, 0x90,
        0xbd, 0x85, 0x5f, 0x08, 0x6e, 0x3e, 0x9d, 0x52, 0x5b, 0x46, 0xbf, 0xe2, 0x45, 0x11, 0x43,
        0x15, 0x32,
    ];
    assert_eq!(abc, expected_abc);
}

#[test]
fn transaction_round_trip_multibyte_sign() {
    let tx = Transaction::new([2u8; 32], [3u8; 32], 1, 0, 0, "ünïcode ✓".to_string());
    let bytes = tx.encode();
    let de = blockchain_demo::transaction::decode_transaction(&bytes).unwrap();
    assert_eq!(de.sign, "ünïcode ✓");
    assert_eq!(de.hash, tx.hash);
}
