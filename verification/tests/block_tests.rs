//! Block byte serialization: round trip and corruption detection.

use zkstate::block::{genesis_bytes, Block};

fn sample_block() -> Block {
    Block {
        previous_hash: 11111,
        header: 22222,
        transactions: vec![1, 2, 3, 4, 5],
        coinbase: Some(333),
        signature: 4444,
    }
}

#[test]
fn test_bytes() {
    for expected in [sample_block(), Block::genesis()] {
        // Check the byte representation.
        let expected_bytes = expected.write_le();
        let (read, consumed) = Block::read_le(&expected_bytes).unwrap();
        assert_eq!(consumed, expected_bytes.len());
        assert_eq!(expected, read);
        assert!(Block::read_le(&expected_bytes[1..].to_vec()).is_err());
    }
}

#[test]
fn test_genesis_bytes() {
    // Load the genesis block.
    let (genesis_block, _) = Block::read_le(&genesis_bytes()).unwrap();

    // Check the byte representation.
    let expected_bytes = genesis_block.write_le();
    let (read, _) = Block::read_le(&expected_bytes).unwrap();
    assert_eq!(genesis_block, read);
    assert!(Block::read_le(&expected_bytes[1..].to_vec()).is_err());
}

/// A corrupted content byte makes the hash check fail.
#[test]
fn test_corrupted_block() {
    let bytes = sample_block().write_le();
    let mut corrupted = bytes.clone();
    let mid = corrupted.len() / 2;
    corrupted[mid] ^= 0xff;
    assert!(Block::read_le(&corrupted).is_err());
}
