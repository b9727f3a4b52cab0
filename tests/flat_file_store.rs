use std::path::PathBuf;
use std::time::{SystemTime, UNIX_EPOCH};

use rand::{thread_rng, Rng};
use sps_storage::block_data::{BlockData, TWEAK_SIZE};
use sps_storage::block_index::IndexEntry;
use sps_storage::errors::StorageError;
use sps_storage::flat_file_store::{
    block_file_name, is_block_file_name, open_decision, DataFiles, FlatFileStore, StreamCursor, MAGIC_BYTES, MAX_BLOCKDATA_SIZE,
};

fn temp_dir(name: &str) -> PathBuf {
    let nanos = SystemTime::now()
        .duration_since(UNIX_EPOCH)
        .unwrap()
        .as_nanos();
    let mut dir = PathBuf::from("/tmp");
    dir.push(format!("sps_storage_{}_{}", name, nanos));
    dir
}

fn no_files() -> DataFiles {
    DataFiles { first_file_exists: false, other_files_exist: false, last_file_number: 0 }
}

/// Files kept in memory, each starting with the magic marker.
struct MemFiles {
    files: Vec<Vec<u8>>,
}

impl MemFiles {
    fn new() -> Self {
        MemFiles { files: vec![MAGIC_BYTES.to_vec()] }
    }

    fn add_block(
        &mut self,
        store: &mut FlatFileStore,
        block: &BlockData,
        height: u32,
    ) -> Result<(), StorageError> {
        let size = self.files[store.current_file_number() as usize].len() as u64;
        let plan = store.prepare_append(block, height, size)?;
        if plan.rotate {
            self.files.push(MAGIC_BYTES.to_vec());
        }
        self.files[plan.entry.file_number as usize].extend_from_slice(&plan.bytes);
        store.record_append(&block.blockhash, height, &plan)
    }

    fn add_block_bulk(
        &mut self,
        store: &mut FlatFileStore,
        blocks: &[BlockData],
        heights: &[u32],
    ) -> Result<(), StorageError> {
        for (block, height) in blocks.iter().zip(heights.iter()) {
            self.add_block(store, block, *height)?;
        }
        Ok(())
    }

    /// Reads from the record at `entry` until the files run out, in chunks of
    /// at most `chunk` bytes.
    fn read_to_end(&self, entry: &IndexEntry, chunk: usize) -> Vec<u8> {
        let mut cursor = StreamCursor::new(entry);
        let mut out = Vec::new();
        loop {
            let file = &self.files[cursor.file_number as usize];
            let pos = cursor.position as usize;
            if pos >= file.len() {
                let next_exists = (cursor.file_number as usize + 1) < self.files.len();
                if !cursor.on_end_of_file(next_exists) {
                    return out;
                }
                continue;
            }
            let n = chunk.min(file.len() - pos);
            out.extend_from_slice(&file[pos..pos + n]);
            cursor.consumed(n);
        }
    }
}

fn create_random_block_data() -> BlockData {
    let mut rng = thread_rng();
    let mut blockhash = [0u8; 32];
    for i in 0..32 {
        blockhash[i] = rng.gen();
    }
    let num_tweaks = rng.gen_range(1..10);
    let mut tweaks = Vec::with_capacity(num_tweaks);
    for _ in 0..num_tweaks {
        let mut tweak = [0u8; TWEAK_SIZE];
        for i in 0..TWEAK_SIZE {
            tweak[i] = rng.gen();
        }
        tweaks.push(tweak);
    }
    BlockData { blockhash, tweaks }
}

fn read_record(store: &FlatFileStore, mem: &MemFiles, height: u32) -> Vec<u8> {
    let entry = store.get_block_entry_at_height(height).unwrap();
    let stream = mem.read_to_end(&entry, 4096);
    stream[..entry.length as usize].to_vec()
}

#[test]
fn test_add_and_read_single_block() {
    let test_dir = temp_dir("test_flat_file_store_single");
    let mut store = FlatFileStore::initialize(&test_dir, &no_files()).unwrap();
    let mut mem = MemFiles::new();

    let block = create_random_block_data();
    let height = 0;
    mem.add_block(&mut store, &block, height).unwrap();

    let buffer = read_record(&store, &mem, height);
    let read_block = BlockData::deserialize(&buffer).unwrap();
    assert_eq!(block.blockhash, read_block.blockhash);
    assert_eq!(block.tweaks, read_block.tweaks);
}

#[test]
fn test_add_and_read_multiple_blocks() {
    let test_dir = temp_dir("test_flat_file_store_multiple");
    let mut store = FlatFileStore::initialize(&test_dir, &no_files()).unwrap();
    let mut mem = MemFiles::new();

    let num_blocks = 10;
    let mut blocks = Vec::with_capacity(num_blocks);
    let mut heights = Vec::with_capacity(num_blocks);
    for i in 0..num_blocks {
        blocks.push(create_random_block_data());
        heights.push(i as u32);
    }
    mem.add_block_bulk(&mut store, &blocks, &heights).unwrap();

    for (i, inserted_block) in blocks.iter().enumerate() {
        let buffer = read_record(&store, &mem, i as u32);
        let read_block = BlockData::deserialize(&buffer).unwrap();
        assert_eq!(inserted_block.blockhash, read_block.blockhash);
        assert_eq!(inserted_block.tweaks, read_block.tweaks);
    }
}

#[test]
fn test_cross_file_boundary() {
    let test_dir = temp_dir("test_flat_file_store_boundary");
    let mut store = FlatFileStore::initialize(&test_dir, &no_files()).unwrap();
    let mut mem = MemFiles::new();

    let mut large_block = create_random_block_data();
    let mut rng = thread_rng();
    for _ in 0..100 {
        let mut tweak = [0u8; TWEAK_SIZE];
        for i in 0..TWEAK_SIZE {
            tweak[i] = rng.gen();
        }
        large_block.tweaks.push(tweak);
    }

    // a block hash is a unique key of the store: each copy gets its own
    for height in 0..10_000u32 {
        large_block.blockhash[0..4].copy_from_slice(&height.to_le_bytes());
        mem.add_block(&mut store, &large_block, height).unwrap();
    }

    let entry = store.get_block_entry_at_height(0).unwrap();
    let buffer = mem.read_to_end(&entry, 8192);

    let mut pos = 0;
    let mut height = 0u32;
    while pos < buffer.len() {
        let block = BlockData::deserialize(&buffer[pos..]).unwrap();
        large_block.blockhash[0..4].copy_from_slice(&height.to_le_bytes());
        height += 1;
        assert_eq!(large_block.blockhash, block.blockhash);
        assert_eq!(large_block.tweaks.len(), block.tweaks.len());
        pos += block.serialize().len();
    }
    assert_eq!(height, 10_000);
}

#[test]
fn rotation_starts_a_new_file_after_the_marker() {
    let dir = temp_dir("rotation");
    let block = BlockData { blockhash: [1u8; 32], tweaks: vec![[2u8; TWEAK_SIZE]; 2] };
    let len = block.serialize().len() as u64; // 106
    // room for exactly two records before the cap is reached
    let cap = 8 + 2 * len + 1;
    let mut store = FlatFileStore::initialize_with_cap(&dir, &no_files(), cap).unwrap();
    let mut mem = MemFiles::new();
    for h in 0..3u32 {
        let mut b = BlockData { blockhash: [h as u8 + 1; 32], tweaks: block.tweaks.clone() };
        b.blockhash[31] = 0xee;
        mem.add_block(&mut store, &b, h).unwrap();
    }
    assert_eq!(mem.files.len(), 2);
    assert_eq!(&mem.files[1][..8], b"SPSDATA1");
    assert_eq!(store.current_file_number(), 1);
    let e1 = store.get_block_entry_at_height(1).unwrap();
    assert_eq!(e1, IndexEntry { file_number: 0, offset: 8 + len, length: len });
    let e2 = store.get_block_entry_at_height(2).unwrap();
    assert_eq!(e2, IndexEntry { file_number: 1, offset: 8, length: len });
}

#[test]
fn streaming_across_files_yields_the_records_back_to_back() {
    let dir = temp_dir("streaming");
    let mut store = FlatFileStore::initialize_with_cap(&dir, &no_files(), 300).unwrap();
    let mut mem = MemFiles::new();
    let mut expected = Vec::new();
    for h in 0..12u32 {
        let b = BlockData {
            blockhash: [h as u8; 32],
            tweaks: vec![[h as u8 + 100; TWEAK_SIZE]; (h % 3) as usize + 1],
        };
        expected.extend_from_slice(&b.serialize());
        mem.add_block(&mut store, &b, h).unwrap();
    }
    assert!(mem.files.len() >= 3);
    let entry = store.get_block_entry_at_height(0).unwrap();
    for chunk in [1usize, 7, 64, 10_000] {
        assert_eq!(mem.read_to_end(&entry, chunk), expected);
    }
}

#[test]
fn out_of_order_height_writes_nothing() {
    let dir = temp_dir("bulk_gap");
    let mut store = FlatFileStore::initialize(&dir, &no_files()).unwrap();
    let block = create_random_block_data();
    assert!(matches!(
        store.prepare_append(&block, 1, 8),
        Err(StorageError::InvalidHeight)
    ));
    let mut mem = MemFiles::new();
    let blocks = vec![create_random_block_data(), create_random_block_data(), create_random_block_data()];
    let result = mem.add_block_bulk(&mut store, &blocks, &[0, 2, 3]);
    assert!(matches!(result, Err(StorageError::InvalidHeight)));
    assert_eq!(store.index().get_current_height(), 0);
    assert_eq!(mem.files[0].len(), 8 + blocks[0].serialize().len());
}

#[test]
fn a_missing_first_file_beside_others_is_a_gap() {
    let files = DataFiles { first_file_exists: false, other_files_exist: true, last_file_number: 0 };
    let tmp_dir = temp_dir("gap");
    assert!(matches!(
        FlatFileStore::initialize(&tmp_dir, &files),
        Err(StorageError::CorruptDB(_))
    ));
}

#[test]
fn existing_files_with_a_fresh_index_are_fatal() {
    let files = DataFiles { first_file_exists: true, other_files_exist: false, last_file_number: 2 };
    let tmp_dir = temp_dir("fresh_index");
    assert!(matches!(
        FlatFileStore::initialize(&tmp_dir, &files),
        Err(StorageError::Fatal(_))
    ));
}

#[test]
fn reopening_resumes_at_the_last_file_and_height() {
    let dir = temp_dir("reopen_store");
    let mut mem = MemFiles::new();
    {
        let mut store = FlatFileStore::initialize_with_cap(&dir, &no_files(), 200).unwrap();
        for h in 0..5u32 {
            let b = BlockData { blockhash: [h as u8 + 1; 32], tweaks: vec![[7u8; TWEAK_SIZE]; 2] };
            mem.add_block(&mut store, &b, h).unwrap();
        }
    }
    let files = DataFiles {
        first_file_exists: true,
        other_files_exist: true,
        last_file_number: mem.files.len() as u64 - 1,
    };
    let store = FlatFileStore::initialize_with_cap(&dir, &files, 200).unwrap();
    assert_eq!(store.current_file_number(), mem.files.len() as u64 - 1);
    assert_eq!(store.index().get_current_height(), 4);
    let b = BlockData::deserialize(&read_record(&store, &mem, 3)).unwrap();
    assert_eq!(b.blockhash, [4u8; 32]);
}

#[test]
fn removed_block_is_reported_orphaned() {
    let dir = temp_dir("store_remove");
    let mut store = FlatFileStore::initialize(&dir, &no_files()).unwrap();
    let mut mem = MemFiles::new();
    let block = create_random_block_data();
    mem.add_block(&mut store, &block, 0).unwrap();
    store.remove_block(&block.blockhash).unwrap();
    assert!(matches!(
        store.get_block_entry(&block.blockhash),
        Err(StorageError::OrphanedEntry)
    ));
    assert_eq!(store.index().get_current_height(), -1);
}

#[test]
fn file_names_are_zero_padded() {
    assert_eq!(block_file_name(0), "sps000000.dat");
    assert_eq!(block_file_name(42), "sps000042.dat");
    assert_eq!(block_file_name(1234567), "sps1234567.dat");
    assert_eq!(MAX_BLOCKDATA_SIZE, 128 * 1024 * 1024);
}

#[test]
fn cursor_moves_past_the_next_marker() {
    let mut c = StreamCursor::new(&IndexEntry { file_number: 3, offset: 100, length: 5 });
    c.consumed(5);
    assert_eq!((c.file_number, c.position), (3, 105));
    assert!(c.on_end_of_file(true));
    assert_eq!((c.file_number, c.position), (4, 8));
    assert!(!c.on_end_of_file(false));
    assert_eq!((c.file_number, c.position), (4, 8));
}

#[test]
fn scenario_random_blocks_and_tip_replacement() {
    let dir = temp_dir("scenario_store");
    let mut store = FlatFileStore::initialize(&dir, &no_files()).unwrap();
    let mut mem = MemFiles::new();
    let mut rng = thread_rng();
    let mut hashes = Vec::new();
    for h in 0..3u32 {
        let mut blockhash = [0u8; 32];
        rng.fill(&mut blockhash[..]);
        blockhash[0] = h as u8; // keep the three hashes distinct
        let mut tweak = [0u8; TWEAK_SIZE];
        rng.fill(&mut tweak[..]);
        let b = BlockData { blockhash, tweaks: vec![tweak] };
        mem.add_block(&mut store, &b, h).unwrap();
        hashes.push(blockhash);
    }
    assert_eq!(store.index().get_current_height(), 2);
    assert_eq!(store.index().get_blockhash_by_height(1).unwrap(), hashes[1]);
    store.remove_block(&hashes[2]).unwrap();
    assert_eq!(store.index().next_expected_height(), 2);
    let replacement = BlockData { blockhash: [0xfe; 32], tweaks: vec![[1u8; TWEAK_SIZE]] };
    mem.add_block(&mut store, &replacement, 2).unwrap();
    assert_eq!(store.index().get_current_height(), 2);
    let b = BlockData::deserialize(&read_record(&store, &mem, 2)).unwrap();
    assert_eq!(b, replacement);
}

#[test]
fn a_known_block_hash_is_refused_before_any_write() {
    let dir = temp_dir("duplicate");
    let mut store = FlatFileStore::initialize(&dir, &no_files()).unwrap();
    let mut mem = MemFiles::new();
    let block = create_random_block_data();
    mem.add_block(&mut store, &block, 0).unwrap();
    let size = mem.files[0].len();
    assert!(matches!(
        mem.add_block(&mut store, &block, 1),
        Err(StorageError::DuplicateBlock)
    ));
    assert_eq!(mem.files[0].len(), size);
    store.remove_block(&block.blockhash).unwrap();
    // an orphaned hash stays known
    assert!(matches!(
        mem.add_block(&mut store, &block, 0),
        Err(StorageError::DuplicateBlock)
    ));
    assert_eq!(store.index().get_current_height(), -1);
}

#[test]
fn a_fresh_store_reports_no_height() {
    let tmp_dir = temp_dir("fresh");
    let store = FlatFileStore::initialize(&tmp_dir, &no_files()).unwrap();
    assert_eq!(store.index().get_current_height(), -1);
    assert_eq!(store.current_file_number(), 0);
}

#[test]
fn a_refused_height_passes_through_record_append() {
    let dir = temp_dir("record_refused");
    let mut store = FlatFileStore::initialize(&dir, &no_files()).unwrap();
    let block = create_random_block_data();
    let plan = store.prepare_append(&block, 0, 8).unwrap();
    assert!(matches!(
        store.record_append(&block.blockhash, 3, &plan),
        Err(StorageError::InvalidHeight)
    ));
    assert_eq!(store.index().get_current_height(), -1);
    store.record_append(&block.blockhash, 0, &plan).unwrap();
    assert!(matches!(
        store.record_append(&block.blockhash, 1, &plan),
        Err(StorageError::DuplicateBlock)
    ));
}

#[test]
fn opening_decisions() {
    let gap = DataFiles { first_file_exists: false, other_files_exist: true, last_file_number: 0 };
    let empty = DataFiles { first_file_exists: false, other_files_exist: false, last_file_number: 0 };
    let three = DataFiles { first_file_exists: true, other_files_exist: true, last_file_number: 2 };
    assert!(matches!(open_decision(false, &gap), Err(StorageError::CorruptDB(_))));
    assert!(matches!(open_decision(true, &gap), Err(StorageError::CorruptDB(_))));
    assert!(matches!(open_decision(true, &three), Err(StorageError::Fatal(_))));
    assert_eq!(open_decision(false, &three).unwrap(), 2);
    assert_eq!(open_decision(true, &empty).unwrap(), 0);
    assert_eq!(open_decision(false, &empty).unwrap(), 0);
}

#[test]
fn block_file_names_are_recognised() {
    assert!(is_block_file_name(b"sps000000.dat"));
    assert!(is_block_file_name(b"sps1234567.dat"));
    assert!(!is_block_file_name(b"sps00000.dat"));
    assert!(!is_block_file_name(b"sps00a000.dat"));
    assert!(!is_block_file_name(b"spsdata.txt"));
    assert!(!is_block_file_name(b"xps000000.dat"));
    assert!(is_block_file_name(block_file_name(42).as_bytes()));
}
