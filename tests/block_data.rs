use sps_storage::block_data::{BlockData, TWEAK_SIZE};
use sps_storage::errors::StorageError;

#[test]
fn test_block_data_serialization() {
    let block = BlockData {
        blockhash: [1u8; 32],
        tweaks: vec![[2u8; TWEAK_SIZE], [3u8; TWEAK_SIZE]],
    };

    let serialized = block.serialize();
    let deserialized = BlockData::deserialize(&serialized).unwrap();

    assert_eq!(block, deserialized);
}

#[test]
fn test_block_data_invalid_crc() {
    let mut serialized = BlockData {
        blockhash: [1u8; 32],
        tweaks: vec![[2u8; TWEAK_SIZE]],
    }
    .serialize();

    if let Some(byte) = serialized.last_mut() {
        *byte ^= 1;
    }

    assert!(matches!(
        BlockData::deserialize(&serialized),
        Err(StorageError::CrcMismatch)
    ));
}

#[test]
fn serialized_layout_is_hash_count_checksum_tweaks() {
    let block = BlockData {
        blockhash: [7u8; 32],
        tweaks: vec![[2u8; TWEAK_SIZE], [3u8; TWEAK_SIZE], [4u8; TWEAK_SIZE]],
    };
    let bytes = block.serialize();
    assert_eq!(bytes.len(), 32 + 4 + 4 + 3 * 33);
    assert_eq!(&bytes[0..32], &[7u8; 32]);
    assert_eq!(&bytes[32..36], &[3, 0, 0, 0]);
    let mut payload = Vec::new();
    payload.extend_from_slice(&[2u8; 33]);
    payload.extend_from_slice(&[3u8; 33]);
    payload.extend_from_slice(&[4u8; 33]);
    assert_eq!(&bytes[36..40], &crc32fast::hash(&payload).to_le_bytes());
    assert_ne!(crc32fast::hash(&payload), 0);
    assert_eq!(&bytes[40..], &payload[..]);
}

#[test]
fn empty_tweak_list_round_trips() {
    let block = BlockData { blockhash: [9u8; 32], tweaks: vec![] };
    let bytes = block.serialize();
    assert_eq!(bytes.len(), 40);
    assert_eq!(&bytes[36..40], &0u32.to_le_bytes());
    assert_eq!(BlockData::deserialize(&bytes).unwrap(), block);
}

#[test]
fn tweak_order_is_kept() {
    let mut tweaks = Vec::new();
    for i in 0..20u8 {
        let mut t = [0u8; TWEAK_SIZE];
        t[0] = i;
        t[32] = 255 - i;
        tweaks.push(t);
    }
    let block = BlockData { blockhash: [0xab; 32], tweaks };
    let back = BlockData::deserialize(&block.serialize()).unwrap();
    assert_eq!(back, block);
}

#[test]
fn every_single_bit_flip_in_payload_is_rejected() {
    let block = BlockData {
        blockhash: [5u8; 32],
        tweaks: vec![[0x11u8; TWEAK_SIZE], [0x22u8; TWEAK_SIZE]],
    };
    let bytes = block.serialize();
    for i in 40..bytes.len() {
        for bit in 0..8 {
            let mut altered = bytes.clone();
            altered[i] ^= 1 << bit;
            assert!(matches!(
                BlockData::deserialize(&altered),
                Err(StorageError::CrcMismatch)
            ));
        }
    }
}

#[test]
fn truncated_records_report_the_missing_field() {
    let bytes = BlockData {
        blockhash: [1u8; 32],
        tweaks: vec![[2u8; TWEAK_SIZE]],
    }
    .serialize();
    assert!(matches!(
        BlockData::deserialize(&bytes[..31]),
        Err(StorageError::DeserializeError("insufficient data for blockhash"))
    ));
    assert!(matches!(
        BlockData::deserialize(&bytes[..35]),
        Err(StorageError::DeserializeError("insufficient data for lenTweaks"))
    ));
    assert!(matches!(
        BlockData::deserialize(&bytes[..39]),
        Err(StorageError::DeserializeError("insufficient data for CRC"))
    ));
    assert!(matches!(
        BlockData::deserialize(&bytes[..72]),
        Err(StorageError::DeserializeError("insufficient data for tweaks"))
    ));
    assert!(matches!(
        BlockData::deserialize(&[]),
        Err(StorageError::DeserializeError("insufficient data for blockhash"))
    ));
}

#[test]
fn bytes_after_a_record_are_ignored() {
    let block = BlockData {
        blockhash: [3u8; 32],
        tweaks: vec![[8u8; TWEAK_SIZE]],
    };
    let mut bytes = block.serialize();
    bytes.extend_from_slice(&[0xff; 10]);
    assert_eq!(BlockData::deserialize(&bytes).unwrap(), block);
}

#[test]
fn error_messages_name_the_kind() {
    assert_eq!(StorageError::CrcMismatch.message(), "CRC mismatch for tweaks");
    assert_eq!(
        StorageError::DeserializeError("x").message(),
        "Deserialization error: x"
    );
    assert_eq!(StorageError::EntryNotFound.message(), "Not found");
}
