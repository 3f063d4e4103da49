use blockchain_maker::block::{decode_block, encode_block};
use blockchain_maker::{Block, Blockchain, BlockchainError, LedgerStore};

fn chars(s: &str) -> Vec<char> {
    s.chars().collect()
}

fn built_chain(reward: u64, halving: u64, payloads: &[&str]) -> Blockchain {
    let mut bc = Blockchain::new(reward, halving);
    for p in payloads {
        bc.add_block(p.to_string()).expect("add_block failed");
    }
    bc
}

#[test]
fn reward_schedule_values() {
    let bc = Blockchain::new(50, 2);
    assert_eq!(bc.calculate_reward(0), 50);
    assert_eq!(bc.calculate_reward(1), 50);
    assert_eq!(bc.calculate_reward(2), 25);
    assert_eq!(bc.calculate_reward(3), 25);
    assert_eq!(bc.calculate_reward(4), 12);
    let unit = Blockchain::new(50, 1);
    assert_eq!(unit.calculate_reward(5), 50 >> 5);
    assert_eq!(unit.calculate_reward(63), 0);
    assert_eq!(unit.calculate_reward(64), 0);
    assert_eq!(unit.calculate_reward(u64::MAX), 0);
}

#[test]
fn reward_halving_scenario() {
    let bc = built_chain(50, 2, &["one", "two", "three", "four", "five"]);
    let rewards: Vec<u64> = bc.blocks().iter().map(|b| b.reward).collect();
    assert_eq!(rewards, vec![50, 50, 25, 25, 12]);
}

#[test]
fn chain_linkage_holds() {
    let bc = built_chain(50, 2, &["a", "b", "c", "d"]);
    let blocks = bc.blocks();
    assert_eq!(blocks.len(), 4);
    assert_eq!(blocks[0].previous_hash, vec!['0']);
    for i in 1..blocks.len() {
        assert_eq!(blocks[i].previous_hash, blocks[i - 1].block_hash);
        assert_eq!(blocks[i].block_number, blocks[i - 1].block_number + 1);
    }
    assert_eq!(blocks[0].block_number, 1);
}

#[test]
fn validate_fresh_chains() {
    assert!(Blockchain::new(50, 2).validate_chain());
    assert!(built_chain(50, 2, &["only"]).validate_chain());
    assert!(built_chain(50, 2, &["a", "b", "c"]).validate_chain());
}

#[test]
fn validate_detects_tampered_data() {
    assert!(!validate_after_tamper_at(2, |b| b.data.push('!')));
}

#[test]
fn validate_detects_tampered_content_hash() {
    assert!(!validate_after_tamper_at(2, |b| {
        b.content_hash[0] = if b.content_hash[0] == 'a' { 'b' } else { 'a' };
    }));
}

#[test]
fn validate_detects_tampered_signature() {
    assert!(!validate_after_tamper_at(2, |b| b.signature[0] ^= 0xff));
}

#[test]
fn validate_detects_tampered_previous_hash() {
    assert!(!validate_after_tamper_at(2, |b| {
        b.previous_hash[0] = if b.previous_hash[0] == 'a' { 'b' } else { 'a' };
    }));
}

#[test]
fn validate_detects_tampered_genesis_data() {
    assert!(!validate_after_tamper_at(1, |b| b.data.push('!')));
}

#[test]
fn validate_detects_tampered_genesis_content_hash() {
    assert!(!validate_after_tamper_at(1, |b| {
        b.content_hash[0] = if b.content_hash[0] == 'a' { 'b' } else { 'a' };
    }));
}

#[test]
fn validate_detects_tampered_genesis_signature() {
    assert!(!validate_after_tamper_at(1, |b| b.signature[0] ^= 0xff));
}

#[test]
fn validate_detects_tampered_genesis_previous_hash() {
    assert!(!validate_after_tamper_at(1, |b| b.previous_hash[0] = '1'));
}

/// Builds a two-block chain, mutates persisted block `index` with `f`,
/// reloads, and reports what validation says.
fn validate_after_tamper_at(index: usize, f: impl Fn(&mut Block)) -> bool {
    let bc = built_chain(50, 2, &["first", "second"]);
    let mut tampered_store = bc.store_ref().clone();
    let record = tampered_store.read(index).expect("record exists").clone();
    let mut block = decode_block(&record).expect("record decodes");
    f(&mut block);
    tampered_store.write(index, encode_block(&block));
    let loaded = Blockchain::load_chain_from_disk(tampered_store, 50, 2).expect("load succeeds");
    loaded.validate_chain()
}

#[test]
fn persistence_roundtrip() {
    let bc = built_chain(50, 2, &["one", "two:with colon", "three\nwith newline", "vier ✓ été"]);
    let loaded = Blockchain::load_chain_from_disk(bc.store_ref().clone(), 50, 2)
        .expect("load succeeds");
    assert_eq!(loaded.blocks(), bc.blocks());
    assert_eq!(loaded.blocks().len(), 4);
    assert!(loaded.validate_chain());
    assert_eq!(loaded.base_reward(), 50);
    assert_eq!(loaded.halving_interval(), 2);
}

#[test]
fn empty_store_behaviour() {
    let empty = LedgerStore::new();
    assert!(matches!(
        Blockchain::load_chain_from_disk(empty, 50, 2),
        Err(BlockchainError::NoBlocksFound)
    ));
    assert!(Blockchain::new(50, 2).validate_chain());
}

#[test]
fn zero_halving_interval_is_config_error() {
    assert!(matches!(
        Blockchain::load_chain_from_disk(LedgerStore::new(), 50, 0),
        Err(BlockchainError::ConfigError)
    ));
    let bc = built_chain(50, 2, &["x"]);
    assert!(matches!(
        Blockchain::load_chain_from_disk(bc.store_ref().clone(), 50, 0),
        Err(BlockchainError::ConfigError)
    ));
}

#[test]
fn malformed_record_is_deserialize_error() {
    let mut store = LedgerStore::new();
    store.write(1, chars("this is not a record"));
    assert!(matches!(
        Blockchain::load_chain_from_disk(store, 50, 2),
        Err(BlockchainError::DeserializeError)
    ));
}

#[test]
fn store_mirrors_chain() {
    let bc = built_chain(50, 2, &["a", "b"]);
    let store = bc.store_ref();
    assert_eq!(store.count(), 2);
    assert!(store.has_record(1));
    assert!(store.has_record(2));
    assert!(!store.has_record(0));
    assert!(!store.has_record(3));
    for i in 1..=2usize {
        let record = store.read(i).expect("record exists");
        let decoded = decode_block(record).expect("record decodes");
        assert_eq!(&decoded, &bc.blocks()[i - 1]);
    }
    assert!(store.read(3).is_none());
}

#[test]
fn key_archive_grows_with_chain() {
    let bc = built_chain(50, 2, &["a", "b", "c"]);
    let archive = bc.key_records();
    assert_eq!(archive.len(), 3);
    for (i, entry) in archive.iter().enumerate() {
        let block = &bc.blocks()[i];
        assert_eq!(entry.block_number, block.block_number);
        assert_eq!(entry.reward, block.reward);
        assert_eq!(entry.timestamp, block.timestamp);
        assert!(!entry.private_key_pem.is_empty());
    }
}

#[test]
fn block_new_reports_its_inputs() {
    let (block, private_pem) =
        Block::new(chars("data"), chars("0"), 1, 50).expect("block construction");
    assert_eq!(block.data, chars("data"));
    assert_eq!(block.previous_hash, chars("0"));
    assert_eq!(block.block_number, 1);
    assert_eq!(block.reward, 50);
    assert_eq!(block.content_hash.len(), 64);
    assert_eq!(block.block_hash.len(), 64);
    assert!(!private_pem.is_empty());
}
