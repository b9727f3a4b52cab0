//! The index: three mappings kept in the key-value store (block hash to
//! location, height to block hash, block hash to height) and the next height
//! that may be inserted.

use vstd::prelude::*;
use crate::errors::StorageError;
use crate::int_bytes::{
    be_u32, le_u32, le_u64, u32_of_be, u32_of_le, u64_of_le, lemma_be_u32_round_trip,
    lemma_be_u32_first_difference, lemma_u32_be_round_trip, lemma_u32_le_round_trip,
    lemma_u64_le_round_trip, push_u32_be, push_u32_le, push_u64_le,
    read_u32_be, read_u32_le, read_u64_le,
};
use crate::kv::{
    db_open_tree, db_was_recovered, lex_lt, open_db, tree_contents, tree_get, tree_insert, tree_last,
    tree_remove,
};

verus! {

/// The greatest height the index accepts, so that the current height fits an `i32`.
pub const MAX_HEIGHT: u32 = 0x7fff_ffff;

/// The size of a serialized [`IndexEntry`].
pub const INDEX_ENTRY_SIZE: usize = 24;

/// Where a serialized record lies in the flat files.
#[derive(Debug, Clone, Copy, PartialEq, Eq, Structural)]
pub struct IndexEntry {
    pub file_number: u64,
    pub offset: u64,
    pub length: u64,
}

/// The 24 bytes of an entry: file number, offset and length, each a `u64` LE.
pub open spec fn entry_bytes(e: IndexEntry) -> Seq<u8> {
    le_u64(e.file_number) + le_u64(e.offset) + le_u64(e.length)
}

/// The entry whose bytes are `b[0..24]`.
pub open spec fn entry_of_bytes(b: Seq<u8>) -> IndexEntry {
    IndexEntry {
        file_number: u64_of_le(b.subrange(0, 8)),
        offset: u64_of_le(b.subrange(8, 16)),
        length: u64_of_le(b.subrange(16, 24)),
    }
}

/// The one-byte value that marks a retracted block where a location is expected.
pub open spec fn orphan_marker() -> Seq<u8> {
    seq![0u8]
}

/// The store's key for a height: big-endian, so that keys sort as heights do.
pub open spec fn height_key(h: u32) -> Seq<u8> {
    be_u32(h)
}

/// The view of a stored value handed back by a lookup.
pub open spec fn stored_view(v: Option<Vec<u8>>) -> Option<Seq<u8>> {
    match v {
        Some(v) => Some(v@),
        None => None,
    }
}

/// What a map holds under `k`, if anything.
pub open spec fn lookup(m: Map<Seq<u8>, Seq<u8>>, k: Seq<u8>) -> Option<Seq<u8>> {
    if m.contains_key(k) {
        Some(m[k])
    } else {
        None
    }
}

/// The answer to a location lookup that found `v`.
pub open spec fn entry_result(v: Option<Seq<u8>>) -> Result<IndexEntry, StorageError> {
    match v {
        None => Err(StorageError::EntryNotFound),
        Some(b) => if b == orphan_marker() {
            Err(StorageError::OrphanedEntry)
        } else if b.len() == 24 {
            Ok(entry_of_bytes(b))
        } else {
            Err(StorageError::InvalidData("Invalid index entry format"))
        },
    }
}

/// The answer to a block-hash lookup that found `v`.
pub open spec fn hash_result(v: Option<Seq<u8>>) -> Result<Seq<u8>, StorageError> {
    match v {
        None => Err(StorageError::EntryNotFound),
        Some(b) => if b.len() == 32 {
            Ok(b)
        } else {
            Err(StorageError::InvalidData("Invalid blockhash length"))
        },
    }
}

/// The answer to a height lookup that found `v`.
pub open spec fn height_result(v: Option<Seq<u8>>) -> Result<u32, StorageError> {
    match v {
        None => Err(StorageError::EntryNotFound),
        Some(b) => if b.len() == 4 {
            Ok(u32_of_le(b))
        } else {
            Err(StorageError::InvalidData("Invalid height data length"))
        },
    }
}

/// The contents of the three mappings and the next expected height.
pub struct IndexState {
    /// block hash -> serialized location, or the orphan marker
    pub entries: Map<Seq<u8>, Seq<u8>>,
    /// height key -> block hash
    pub hash_at: Map<Seq<u8>, Seq<u8>>,
    /// block hash -> height (`u32` LE)
    pub height_of: Map<Seq<u8>, Seq<u8>>,
    pub next: nat,
}

impl IndexState {
    /// The height of the tip; -1 when the index is empty.
    pub open spec fn current_height(self) -> int {
        self.next - 1
    }

    /// Whether inserting at height `h` is refused.
    pub open spec fn insert_refused(self, h: u32) -> bool {
        h != self.next || h > MAX_HEIGHT
    }

    /// The state after block `hash` was inserted at height `h` with location `e`.
    pub open spec fn inserted(self, h: u32, hash: Seq<u8>, e: IndexEntry) -> IndexState {
        IndexState {
            entries: self.entries.insert(hash, entry_bytes(e)),
            hash_at: self.hash_at.insert(height_key(h), hash),
            height_of: self.height_of.insert(hash, le_u32(h)),
            next: self.next + 1,
        }
    }

    pub open spec fn entry_lookup(self, hash: Seq<u8>) -> Result<IndexEntry, StorageError> {
        entry_result(lookup(self.entries, hash))
    }

    pub open spec fn hash_lookup(self, h: u32) -> Result<Seq<u8>, StorageError> {
        hash_result(lookup(self.hash_at, height_key(h)))
    }

    pub open spec fn height_lookup(self, hash: Seq<u8>) -> Result<u32, StorageError> {
        height_result(lookup(self.height_of, hash))
    }

    /// The height mapping holds exactly the heights below the next expected one.
    pub open spec fn heights_contiguous(self) -> bool {
        &&& forall|k: Seq<u8>| #[trigger]
            self.hash_at.contains_key(k) ==> k.len() == 4 && u32_of_be(k) < self.next
        &&& forall|h: u32| h < self.next ==> #[trigger] self.hash_at.contains_key(height_key(h))
    }

    /// Each height maps to a hash that maps back to it and has a location;
    /// a hash has a height exactly when its location is not the orphan marker.
    pub open spec fn mappings_consistent(self) -> bool {
        &&& forall|k: Seq<u8>| #[trigger]
            self.hash_at.contains_key(k) ==> {
                let hash = self.hash_at[k];
                &&& self.height_of.contains_key(hash)
                &&& height_key(u32_of_le(self.height_of[hash])) == k
                &&& self.entries.contains_key(hash)
                &&& self.entries[hash].len() == 24
            }
        &&& forall|hash: Seq<u8>| #[trigger]
            self.height_of.contains_key(hash) ==> {
                let k = height_key(u32_of_le(self.height_of[hash]));
                &&& self.height_of[hash].len() == 4
                &&& self.hash_at.contains_key(k)
                &&& self.hash_at[k] == hash
            }
        &&& forall|hash: Seq<u8>| #[trigger]
            self.entries.contains_key(hash) ==> (self.height_of.contains_key(hash) <==> self.entries[hash]
                != orphan_marker())
    }

    /// The invariants the index keeps: heights without gaps, and the three
    /// mappings consistent with one another.
    pub open spec fn consistent(self) -> bool {
        self.heights_contiguous() && self.mappings_consistent()
    }

    /// The outcome of retracting block `hash`, before any write.
    pub open spec fn remove_result(self, hash: Seq<u8>) -> Result<(), StorageError> {
        if !self.entries.contains_key(hash) {
            Err(StorageError::EntryNotFound)
        } else {
            match self.height_lookup(hash) {
                Err(_) => Err(StorageError::EntryNotFound),
                Ok(h) => if h + 1 == self.next {
                    Ok(())
                } else {
                    Err(StorageError::InvalidHeight)
                },
            }
        }
    }

    /// The state after the tip block `hash` was retracted.
    pub open spec fn removed(self, hash: Seq<u8>) -> IndexState {
        let h = u32_of_le(self.height_of[hash]);
        IndexState {
            entries: self.entries.insert(hash, orphan_marker()),
            hash_at: self.hash_at.remove(height_key(h)),
            height_of: self.height_of.remove(hash),
            next: (self.next - 1) as nat,
        }
    }
}

/// Decoding the 24-byte form of an entry gives the entry back, and that
/// form is never the orphan marker.
pub proof fn lemma_entry_round_trip(e: IndexEntry)
    ensures
        entry_bytes(e).len() == 24,
        entry_of_bytes(entry_bytes(e)) == e,
        entry_bytes(e) != orphan_marker(),
{
    let b = entry_bytes(e);
    lemma_u64_le_round_trip(e.file_number);
    lemma_u64_le_round_trip(e.offset);
    lemma_u64_le_round_trip(e.length);
    assert(b.subrange(0, 8) =~= le_u64(e.file_number));
    assert(b.subrange(8, 16) =~= le_u64(e.offset));
    assert(b.subrange(16, 24) =~= le_u64(e.length));
}

impl IndexEntry {
    /// The 24-byte form: file number, offset and length, each a `u64` LE.
    pub fn serialize(&self) -> (r: [u8; 24])
        ensures
            r@ == entry_bytes(*self),
    {
        let v = self.to_bytes();
        let mut buf = [0u8; 24];
        let mut i: usize = 0;
        while i < INDEX_ENTRY_SIZE
            invariant
                i <= 24,
                v@ == entry_bytes(*self),
                v@.len() == 24,
                forall|k: int| 0 <= k < i ==> buf@[k] == v@[k],
            decreases 24 - i,
        {
            buf[i] = v[i];
            i = i + 1;
        }
        assert(buf@ =~= v@);
        buf
    }

    /// The 24-byte form, as a vector.
    fn to_bytes(&self) -> (r: Vec<u8>)
        ensures
            r@ == entry_bytes(*self),
            r@.len() == 24,
    {
        let mut v: Vec<u8> = Vec::new();
        push_u64_le(&mut v, self.file_number);
        push_u64_le(&mut v, self.offset);
        push_u64_le(&mut v, self.length);
        v
    }

    /// Reads an entry from exactly 24 bytes; `None` for any other length.
    pub fn deserialize(data: &[u8]) -> (r: Option<IndexEntry>)
        ensures
            data@.len() != 24 ==> r is None,
            data@.len() == 24 ==> r == Some(entry_of_bytes(data@)),
    {
        if data.len() != INDEX_ENTRY_SIZE {
            return None;
        }
        let file_number = read_u64_le(data, 0);
        let offset = read_u64_le(data, 8);
        let length = read_u64_le(data, 16);
        Some(IndexEntry { file_number, offset, length })
    }
}

/// The answer to a location lookup, from what the store held under the hash.
pub fn entry_from_stored(stored: Option<Vec<u8>>) -> (r: Result<IndexEntry, StorageError>)
    ensures
        r == entry_result(stored_view(stored)),
{
    match stored {
        None => Err(StorageError::EntryNotFound),
        Some(data) => {
            if data.len() == 1 && data[0] == 0 {
                assert(data@ =~= orphan_marker());
                return Err(StorageError::OrphanedEntry);
            }
            match IndexEntry::deserialize(data.as_slice()) {
                Some(e) => Ok(e),
                None => Err(StorageError::InvalidData("Invalid index entry format")),
            }
        },
    }
}

/// The answer to a block-hash lookup, from what the store held under the height.
pub fn hash_from_stored(stored: Option<Vec<u8>>) -> (r: Result<[u8; 32], StorageError>)
    ensures
        match r {
            Ok(h) => hash_result(stored_view(stored)) == Ok::<Seq<u8>, StorageError>(h@),
            Err(e) => hash_result(stored_view(stored)) == Err::<Seq<u8>, StorageError>(e),
        },
{
    match stored {
        None => Err(StorageError::EntryNotFound),
        Some(data) => {
            if data.len() != 32 {
                return Err(StorageError::InvalidData("Invalid blockhash length"));
            }
            let mut blockhash = [0u8; 32];
            let mut i: usize = 0;
            while i < 32
                invariant
                    i <= 32,
                    data@.len() == 32,
                    forall|k: int| 0 <= k < i ==> blockhash@[k] == data@[k],
                decreases 32 - i,
            {
                blockhash[i] = data[i];
                i = i + 1;
            }
            assert(blockhash@ =~= data@);
            Ok(blockhash)
        },
    }
}

/// The answer to a height lookup, from what the store held under the hash.
pub fn height_from_stored(stored: Option<Vec<u8>>) -> (r: Result<u32, StorageError>)
    ensures
        r == height_result(stored_view(stored)),
{
    match stored {
        None => Err(StorageError::EntryNotFound),
        Some(data) => {
            if data.len() != 4 {
                return Err(StorageError::InvalidData("Invalid height data length"));
            }
            let h = read_u32_le(data.as_slice(), 0);
            assert(data@.subrange(0, 4) =~= data@);
            Ok(h)
        },
    }
}

/// The next expected height of a recovered index whose greatest height key is
/// `last_key` (`None` when the height mapping is empty).
pub fn next_height_from_last_key(last_key: Option<Vec<u8>>) -> (r: Result<u32, StorageError>)
    ensures
        last_key is None ==> r == Ok::<u32, StorageError>(0),
        last_key matches Some(k) ==> (if k@.len() != 4 {
            r == Err::<u32, StorageError>(StorageError::CorruptDB("height key is not 4 bytes"))
        } else if u32_of_be(k@) > MAX_HEIGHT {
            r == Err::<u32, StorageError>(StorageError::CorruptDB("height out of range"))
        } else {
            r == Ok::<u32, StorageError>((u32_of_be(k@) + 1) as u32)
        }),
{
    match last_key {
        None => Ok(0),
        Some(k) => {
            if k.len() != 4 {
                return Err(StorageError::CorruptDB("height key is not 4 bytes"));
            }
            let h = read_u32_be(k.as_slice(), 0);
            assert(k@.subrange(0, 4) =~= k@);
            if h > MAX_HEIGHT {
                return Err(StorageError::CorruptDB("height out of range"));
            }
            Ok(h + 1)
        },
    }
}

/// Whether tree `t` holds no key.
fn tree_is_empty(t: &sled::Tree) -> (r: Result<bool, StorageError>)
    ensures
        r matches Ok(b) ==> (b <==> tree_contents(*t).dom().is_empty()),
        r is Err ==> r matches Err(StorageError::DbError(_)),
{
    match tree_last(t) {
        Err(e) => Err(StorageError::DbError(e)),
        Ok(None) => Ok(true),
        Ok(Some((k, _))) => {
            assert(tree_contents(*t).dom().contains(k@));
            Ok(false)
        },
    }
}

/// The index over the key-value store.
pub struct Index {
    db: sled::Db,
    entries: sled::Tree,
    height_to_hash: sled::Tree,
    hash_to_height: sled::Tree,
    next_height: u32,
}

impl View for Index {
    type V = IndexState;

    closed spec fn view(&self) -> IndexState {
        IndexState {
            entries: tree_contents(self.entries),
            hash_at: tree_contents(self.height_to_hash),
            height_of: tree_contents(self.hash_to_height),
            next: self.next_height as nat,
        }
    }
}

impl Index {
    /// The next expected height fits the range of heights.
    pub closed spec fn wf(&self) -> bool {
        self.next_height <= MAX_HEIGHT + 1
    }

    /// Opens or creates the index at `db_path`; the flag is true when the
    /// store was created by this call. A recovered index expects the height
    /// after the greatest stored one.
    pub fn initialize(db_path: &std::path::PathBuf) -> (r: Result<(Index, bool), StorageError>)
        ensures
            r is Err ==> (r matches Err(StorageError::DbError(_)) || r matches Err(
                StorageError::CorruptDB(_),
            )),
            r matches Err(StorageError::CorruptDB(m)) ==> m == "height key is not 4 bytes" || m
                == "height out of range" || m == "newly created index is not empty",
            r matches Ok((ix, fresh)) ==> {
                &&& ix.wf()
                &&& fresh ==> ix@.next == 0 && ix@.entries.dom().is_empty()
                    && ix@.hash_at.dom().is_empty() && ix@.height_of.dom().is_empty()
                    && ix@.consistent()
                &&& !fresh ==> (ix@.next == 0 <==> ix@.hash_at.dom().is_empty())
                &&& ix@.next > 0 ==> {
                    let k = height_key((ix@.next - 1) as u32);
                    &&& ix@.hash_at.contains_key(k)
                    &&& forall|o: Seq<u8>|
                        #![trigger ix@.hash_at.contains_key(o)]
                        ix@.hash_at.contains_key(o) && o != k ==> lex_lt(o, k)
                }
            },
    {
        let db = match open_db(db_path) {
            Ok(db) => db,
            Err(e) => return Err(StorageError::DbError(e)),
        };
        let entries = match db_open_tree(&db, "hash_to_entry") {
            Ok(t) => t,
            Err(e) => return Err(StorageError::DbError(e)),
        };
        let height_to_hash = match db_open_tree(&db, "height_to_hash") {
            Ok(t) => t,
            Err(e) => return Err(StorageError::DbError(e)),
        };
        let hash_to_height = match db_open_tree(&db, "hash_to_height") {
            Ok(t) => t,
            Err(e) => return Err(StorageError::DbError(e)),
        };
        let is_new = !db_was_recovered(&db);
        let next_height: u32 = if is_new {
            let e1 = tree_is_empty(&entries);
            let e2 = tree_is_empty(&height_to_hash);
            let e3 = tree_is_empty(&hash_to_height);
            match (e1, e2, e3) {
                (Err(e), _, _) => return Err(e),
                (_, Err(e), _) => return Err(e),
                (_, _, Err(e)) => return Err(e),
                (Ok(true), Ok(true), Ok(true)) => {},
                _ => return Err(StorageError::CorruptDB("newly created index is not empty")),
            }
            0
        } else {
            match tree_last(&height_to_hash) {
                Err(e) => return Err(StorageError::DbError(e)),
                Ok(last) => {
                    let key = match last {
                        Some((k, _)) => Some(k),
                        None => None,
                    };
                    let ghost kv = key;
                    match next_height_from_last_key(key) {
                        Ok(n) => {
                            proof {
                                if let Some(k) = kv {
                                    lemma_be_u32_round_trip(k@);
                                }
                            }
                            n
                        },
                        Err(e) => return Err(e),
                    }
                },
            }
        };
        let ix = Index { db, entries, height_to_hash, hash_to_height, next_height };
        Ok((ix, is_new))
    }

    /// Records block `blockhash` at `height` with location `entry`. Only the
    /// next expected height is accepted; on success the expectation advances
    /// by one. The height mapping is written first, then the hash-to-height
    /// mapping, then the location.
    pub fn insert_block(&mut self, height: u32, blockhash: &[u8; 32], entry: &IndexEntry) -> (r:
        Result<(), StorageError>)
        requires
            old(self).wf(),
        ensures
            final(self).wf(),
            old(self)@.insert_refused(height) ==> r == Err::<(), StorageError>(
                StorageError::InvalidHeight,
            ) && final(self)@ == old(self)@,
            !old(self)@.insert_refused(height) && old(self)@.entries.contains_key(blockhash@) ==> (r
                == Err::<(), StorageError>(StorageError::DuplicateBlock) || r matches Err(
                StorageError::DbError(_),
            )) && final(self)@ == old(self)@,
            r is Ok ==> !old(self)@.insert_refused(height) && !old(self)@.entries.contains_key(
                blockhash@,
            ) && final(self)@ == old(self)@.inserted(height, blockhash@, *entry),
            !old(self)@.insert_refused(height) && !old(self)@.entries.contains_key(blockhash@) ==> (r is Ok
                || r matches Err(StorageError::DbError(_)) || r matches Err(StorageError::Fatal(_))),
            r matches Err(StorageError::DbError(_)) ==> final(self)@.entries == old(self)@.entries
                && final(self)@.height_of == old(self)@.height_of && final(self)@.next == old(
                self,
            )@.next,
            r matches Err(StorageError::Fatal(_)) ==> final(self)@.hash_at == old(
                self,
            )@.hash_at.insert(height_key(height), blockhash@) && final(self)@.next == old(self)@.next
                + 1,
            old(self)@.consistent() && r is Ok ==> final(self)@.consistent(),
    {
        if height != self.next_height || height > MAX_HEIGHT {
            return Err(StorageError::InvalidHeight);
        }
        match tree_get(&self.entries, blockhash.as_slice()) {
            Err(e) => return Err(StorageError::DbError(e)),
            Ok(Some(_)) => return Err(StorageError::DuplicateBlock),
            Ok(None) => {},
        }
        let mut key: Vec<u8> = Vec::new();
        push_u32_be(&mut key, height);
        if let Err(e) = tree_insert(&mut self.height_to_hash, key.as_slice(), blockhash.as_slice()) {
            return Err(StorageError::DbError(e));
        }
        self.next_height = self.next_height + 1;
        let mut hv: Vec<u8> = Vec::new();
        push_u32_le(&mut hv, height);
        if tree_insert(&mut self.hash_to_height, blockhash.as_slice(), hv.as_slice()).is_err() {
            return Err(StorageError::Fatal("failed to record the height of an inserted block"));
        }
        let ev = entry.serialize();
        if tree_insert(&mut self.entries, blockhash.as_slice(), ev.as_slice()).is_err() {
            return Err(StorageError::Fatal("failed to record the location of an inserted block"));
        }
        proof {
            if old(self)@.consistent() {
                lemma_heights_stay_contiguous(old(self)@, height, blockhash@, *entry);
                lemma_mappings_stay_consistent(old(self)@, height, blockhash@, *entry);
            }
        }
        Ok(())
    }

    /// Whether block `blockhash` is in the location mapping, live or retracted.
    pub fn contains_block(&self, blockhash: &[u8; 32]) -> (r: Result<bool, StorageError>)
        ensures
            r matches Ok(b) ==> b == self@.entries.contains_key(blockhash@),
            r is Err ==> r matches Err(StorageError::DbError(_)),
    {
        match tree_get(&self.entries, blockhash.as_slice()) {
            Err(e) => Err(StorageError::DbError(e)),
            Ok(v) => Ok(v.is_some()),
        }
    }

    /// The location of block `blockhash`: not found when the hash is unknown,
    /// orphaned when the block was retracted.
    pub fn get_block_entry(&self, blockhash: &[u8; 32]) -> (r: Result<IndexEntry, StorageError>)
        ensures
            r matches Err(StorageError::DbError(_)) || r == self@.entry_lookup(blockhash@),
    {
        match tree_get(&self.entries, blockhash.as_slice()) {
            Err(e) => Err(StorageError::DbError(e)),
            Ok(v) => entry_from_stored(v),
        }
    }

    /// The hash of the block at `height`.
    pub fn get_blockhash_by_height(&self, height: u32) -> (r: Result<[u8; 32], StorageError>)
        ensures
            match r {
                Ok(h) => self@.hash_lookup(height) == Ok::<Seq<u8>, StorageError>(h@),
                Err(e) => e is DbError || self@.hash_lookup(height) == Err::<Seq<u8>, StorageError>(e),
            },
    {
        let mut key: Vec<u8> = Vec::new();
        push_u32_be(&mut key, height);
        match tree_get(&self.height_to_hash, key.as_slice()) {
            Err(e) => Err(StorageError::DbError(e)),
            Ok(v) => hash_from_stored(v),
        }
    }

    /// The height of block `blockhash`.
    pub fn get_height_by_blockhash(&self, blockhash: &[u8; 32]) -> (r: Result<u32, StorageError>)
        ensures
            r matches Err(StorageError::DbError(_)) || r == self@.height_lookup(blockhash@),
    {
        match tree_get(&self.hash_to_height, blockhash.as_slice()) {
            Err(e) => Err(StorageError::DbError(e)),
            Ok(v) => height_from_stored(v),
        }
    }

    /// Retracts the tip block `blockhash`: the expected height goes back by
    /// one, both height mappings of the block are deleted, and its location
    /// is replaced by the orphan marker.
    pub fn remove_block(&mut self, blockhash: &[u8; 32]) -> (r: Result<(), StorageError>)
        requires
            old(self).wf(),
        ensures
            final(self).wf(),
            r is Ok ==> old(self)@.remove_result(blockhash@) is Ok && final(self)@ == old(
                self,
            )@.removed(blockhash@),
            r is Err && !(r matches Err(StorageError::DbError(_))) ==> r == old(self)@.remove_result(blockhash@)
                && final(self)@ == old(self)@,
            old(self)@.remove_result(blockhash@) is Ok ==> r is Ok || r matches Err(
                StorageError::DbError(_),
            ),
            old(self)@.consistent() && r is Ok ==> final(self)@.consistent(),
    {
        match tree_get(&self.entries, blockhash.as_slice()) {
            Err(e) => return Err(StorageError::DbError(e)),
            Ok(None) => return Err(StorageError::EntryNotFound),
            Ok(Some(_)) => {},
        }
        let height = match self.get_height_by_blockhash(blockhash) {
            Ok(h) => h,
            Err(StorageError::DbError(e)) => return Err(StorageError::DbError(e)),
            Err(_) => return Err(StorageError::EntryNotFound),
        };
        if self.next_height == 0 || height != self.next_height - 1 {
            return Err(StorageError::InvalidHeight);
        }
        let ghost h_bytes = self@.height_of[blockhash@];
        proof {
            lemma_u32_le_round_trip(height);
        }
        self.next_height = self.next_height - 1;
        let mut key: Vec<u8> = Vec::new();
        push_u32_be(&mut key, height);
        if let Err(e) = tree_remove(&mut self.height_to_hash, key.as_slice()) {
            return Err(StorageError::DbError(e));
        }
        if let Err(e) = tree_remove(&mut self.hash_to_height, blockhash.as_slice()) {
            return Err(StorageError::DbError(e));
        }
        let marker: [u8; 1] = [0u8];
        assert(marker@ =~= orphan_marker());
        if let Err(e) = tree_insert(&mut self.entries, blockhash.as_slice(), marker.as_slice()) {
            return Err(StorageError::DbError(e));
        }
        proof {
            if old(self)@.consistent() {
                let e = IndexEntry { file_number: 0, offset: 0, length: 0 };
                lemma_heights_stay_contiguous(old(self)@, height, blockhash@, e);
                lemma_mappings_stay_consistent(old(self)@, height, blockhash@, e);
            }
        }
        Ok(())
    }

    /// The height that the next insertion must have.
    pub fn next_expected_height(&self) -> (r: u32)
        ensures
            r == self@.next,
    {
        self.next_height
    }

    /// The height of the tip, or -1 when the index is empty.
    pub fn get_current_height(&self) -> (r: i32)
        requires
            self.wf(),
        ensures
            r == self@.current_height(),
    {
        (self.next_height as i64 - 1) as i32
    }
}

/// An insertion is refused exactly when its height is not the expected one
/// (or lies beyond the range of heights); an accepted one advances the
/// expectation by one.
pub proof fn lemma_sequential_height(s: IndexState, h: u32, hash: Seq<u8>, e: IndexEntry)
    ensures
        h != s.next ==> s.insert_refused(h),
        h == s.next && h <= MAX_HEIGHT ==> !s.insert_refused(h) && s.inserted(h, hash, e).next
            == s.next + 1,
{
}

/// After a block is inserted and then retracted, its hash is reported as
/// orphaned (not as unknown), both of its height mappings are gone, and the
/// current height is one less than after the insertion.
pub proof fn lemma_orphan_after_retraction(s: IndexState, h: u32, hash: Seq<u8>, e: IndexEntry)
    requires
        !s.insert_refused(h),
    ensures
        s.inserted(h, hash, e).remove_result(hash) is Ok,
        ({
            let s1 = s.inserted(h, hash, e);
            let s2 = s1.removed(hash);
            &&& s2.entry_lookup(hash) == Err::<IndexEntry, StorageError>(StorageError::OrphanedEntry)
            &&& s2.hash_lookup(h) == Err::<Seq<u8>, StorageError>(StorageError::EntryNotFound)
            &&& s2.height_lookup(hash) == Err::<u32, StorageError>(StorageError::EntryNotFound)
            &&& s2.current_height() == s1.current_height() - 1
        }),
{
    lemma_u32_le_round_trip(h);
    let s1 = s.inserted(h, hash, e);
    assert(s1.height_of[hash] == le_u32(h));
    assert(s1.height_lookup(hash) == Ok::<u32, StorageError>(h));
    let s2 = s1.removed(hash);
    assert(s2.entries[hash] == orphan_marker());
}

/// With blocks at heights 0 and 1, the block at height 0 cannot be
/// retracted, and height 1 stays present.
pub proof fn lemma_tip_only_retraction(
    s: IndexState,
    hash0: Seq<u8>,
    e0: IndexEntry,
    hash1: Seq<u8>,
    e1: IndexEntry,
)
    requires
        s.next == 0,
        hash0 != hash1,
        hash1.len() == 32,
    ensures
        !s.insert_refused(0),
        !s.inserted(0, hash0, e0).insert_refused(1),
        ({
            let s2 = s.inserted(0, hash0, e0).inserted(1, hash1, e1);
            &&& s2.remove_result(hash0) == Err::<(), StorageError>(StorageError::InvalidHeight)
            &&& s2.hash_lookup(1) == Ok::<Seq<u8>, StorageError>(hash1)
        }),
{
    lemma_u32_le_round_trip(0);
    let s2 = s.inserted(0, hash0, e0).inserted(1, hash1, e1);
    assert(s2.height_of[hash0] == le_u32(0));
    assert(s2.height_lookup(hash0) == Ok::<u32, StorageError>(0));
    assert(s2.hash_at[height_key(1)] == hash1);
}

/// Inserting at the expected height and retracting the tip both keep the
/// height mapping holding exactly the heights below the next expected one.
pub proof fn lemma_heights_stay_contiguous(s: IndexState, h: u32, hash: Seq<u8>, e: IndexEntry)
    requires
        s.heights_contiguous(),
    ensures
        !s.insert_refused(h) ==> s.inserted(h, hash, e).heights_contiguous(),
        s.remove_result(hash) is Ok ==> s.removed(hash).heights_contiguous(),
{
    lemma_u32_be_round_trip(h);
    if !s.insert_refused(h) {
        let t = s.inserted(h, hash, e);
        assert forall|k: Seq<u8>| #[trigger] t.hash_at.contains_key(k) implies k.len() == 4 && u32_of_be(k)
            < t.next by {
            if k != height_key(h) {
                assert(s.hash_at.contains_key(k));
            }
        }
        assert forall|g: u32| g < t.next implies #[trigger] t.hash_at.contains_key(height_key(g)) by {
            if g != h {
                assert(s.hash_at.contains_key(height_key(g)));
            }
        }
    }
    if s.remove_result(hash) is Ok {
        let t = s.removed(hash);
        let top = u32_of_le(s.height_of[hash]);
        lemma_u32_be_round_trip(top);
        assert forall|k: Seq<u8>| #[trigger] t.hash_at.contains_key(k) implies k.len() == 4 && u32_of_be(k)
            < t.next by {
            assert(s.hash_at.contains_key(k));
            lemma_be_u32_round_trip(k);
            if u32_of_be(k) == top {
                assert(k == height_key(top));
            }
        }
        assert forall|g: u32| g < t.next implies #[trigger] t.hash_at.contains_key(height_key(g)) by {
            lemma_u32_be_round_trip(g);
            assert(s.hash_at.contains_key(height_key(g)));
            assert(height_key(g) != height_key(top));
        }
    }
}

/// When the height mapping holds exactly the heights below the next expected
/// height `N`, its greatest key is that of height `N - 1`: reopening the
/// index recovers `N`, and the current height is unchanged.
pub proof fn lemma_recovered_next_height(s: IndexState, k: Seq<u8>)
    requires
        s.heights_contiguous(),
        0 < s.next <= MAX_HEIGHT + 1,
        s.hash_at.contains_key(k),
        forall|o: Seq<u8>|
            #![trigger s.hash_at.contains_key(o)]
            s.hash_at.contains_key(o) && o != k ==> lex_lt(o, k),
    ensures
        k.len() == 4,
        u32_of_be(k) + 1 == s.next,
{
    let j = u32_of_be(k);
    lemma_be_u32_round_trip(k);
    if j + 1 != s.next {
        let top = (s.next - 1) as u32;
        let o = height_key(top);
        lemma_u32_be_round_trip(top);
        assert(s.hash_at.contains_key(o));
        assert(o != k);
        assert(lex_lt(o, k));
        let i = choose|i: int|
            0 <= i <= o.len() && i <= k.len() && o.subrange(0, i) == k.subrange(0, i) && i < k.len()
                && (i == o.len() || o[i] < k[i]);
        lemma_be_u32_first_difference(top, j, i);
    }
}

/// Inserting a block whose hash the index does not hold, and retracting the
/// tip, keep the three mappings consistent with one another.
pub proof fn lemma_mappings_stay_consistent(s: IndexState, h: u32, hash: Seq<u8>, e: IndexEntry)
    requires
        s.mappings_consistent(),
        s.heights_contiguous(),
    ensures
        !s.insert_refused(h) && !s.entries.contains_key(hash) ==> s.inserted(
            h,
            hash,
            e,
        ).mappings_consistent(),
        s.remove_result(hash) is Ok ==> s.removed(hash).mappings_consistent(),
{
    lemma_u32_le_round_trip(h);
    lemma_u32_be_round_trip(h);
    lemma_entry_round_trip(e);
    if !s.insert_refused(h) && !s.entries.contains_key(hash) {
        if s.height_of.contains_key(hash) {
            let k = height_key(u32_of_le(s.height_of[hash]));
            assert(s.hash_at.contains_key(k));
            assert(s.entries.contains_key(s.hash_at[k]));
        }
        let t = s.inserted(h, hash, e);
        assert(!s.hash_at.contains_key(height_key(h)));
        assert forall|k: Seq<u8>| #[trigger] t.hash_at.contains_key(k) implies ({
            let x = t.hash_at[k];
            &&& t.height_of.contains_key(x)
            &&& height_key(u32_of_le(t.height_of[x])) == k
            &&& t.entries.contains_key(x)
            &&& t.entries[x].len() == 24
        }) by {
            if k != height_key(h) {
                assert(s.hash_at.contains_key(k));
                assert(s.height_of.contains_key(s.hash_at[k]));
            }
        }
        assert forall|x: Seq<u8>| #[trigger] t.height_of.contains_key(x) implies ({
            let k = height_key(u32_of_le(t.height_of[x]));
            &&& t.height_of[x].len() == 4
            &&& t.hash_at.contains_key(k)
            &&& t.hash_at[k] == x
        }) by {
            if x != hash {
                assert(s.height_of.contains_key(x));
                let k = height_key(u32_of_le(s.height_of[x]));
                assert(s.hash_at.contains_key(k));
            }
        }
        assert forall|x: Seq<u8>| #[trigger] t.entries.contains_key(x) implies (t.height_of.contains_key(x)
            <==> t.entries[x] != orphan_marker()) by {
            if x != hash {
                assert(s.entries.contains_key(x));
            }
        }
    }
    if s.remove_result(hash) is Ok {
        let t = s.removed(hash);
        let top = u32_of_le(s.height_of[hash]);
        let kt = height_key(top);
        assert(s.hash_at.contains_key(kt) && s.hash_at[kt] == hash);
        assert forall|k: Seq<u8>| #[trigger] t.hash_at.contains_key(k) implies ({
            let x = t.hash_at[k];
            &&& t.height_of.contains_key(x)
            &&& height_key(u32_of_le(t.height_of[x])) == k
            &&& t.entries.contains_key(x)
            &&& t.entries[x].len() == 24
        }) by {
            assert(s.hash_at.contains_key(k));
            let x = s.hash_at[k];
            assert(s.height_of.contains_key(x));
            assert(x != hash);
        }
        assert forall|x: Seq<u8>| #[trigger] t.height_of.contains_key(x) implies ({
            let k = height_key(u32_of_le(t.height_of[x]));
            &&& t.height_of[x].len() == 4
            &&& t.hash_at.contains_key(k)
            &&& t.hash_at[k] == x
        }) by {
            assert(s.height_of.contains_key(x));
            let k = height_key(u32_of_le(s.height_of[x]));
            assert(s.hash_at.contains_key(k));
            assert(k != kt);
        }
        assert forall|x: Seq<u8>| #[trigger] t.entries.contains_key(x) implies (t.height_of.contains_key(x)
            <==> t.entries[x] != orphan_marker()) by {
            if x != hash {
                assert(s.entries.contains_key(x));
            }
        }
    }
}

/// Three blocks inserted at heights 0, 1 and 2 give current height 2 and
/// height 1 maps to the second hash; after the tip is retracted, a block with
/// a new hash is accepted at height 2 again and the current height is 2.
pub proof fn lemma_replace_tip(
    s: IndexState,
    hashes: Seq<Seq<u8>>,
    entries: Seq<IndexEntry>,
    new_hash: Seq<u8>,
    e: IndexEntry,
)
    requires
        s.next == 0,
        hashes.len() == 3,
        entries.len() == 3,
        hashes[0] != hashes[1] && hashes[1] != hashes[2] && hashes[0] != hashes[2],
        hashes[1].len() == 32,
        forall|i: int| 0 <= i < 3 ==> !s.entries.contains_key(#[trigger] hashes[i]),
        !s.entries.contains_key(new_hash),
        new_hash != hashes[0] && new_hash != hashes[1] && new_hash != hashes[2],
    ensures
        ({
            let s1 = s.inserted(0, hashes[0], entries[0]);
            let s2 = s1.inserted(1, hashes[1], entries[1]);
            let s3 = s2.inserted(2, hashes[2], entries[2]);
            let s4 = s3.removed(hashes[2]);
            &&& !s.insert_refused(0) && !s1.insert_refused(1) && !s2.insert_refused(2)
            &&& !s1.entries.contains_key(hashes[1]) && !s2.entries.contains_key(hashes[2])
            &&& s3.current_height() == 2
            &&& s3.hash_lookup(1) == Ok::<Seq<u8>, StorageError>(hashes[1])
            &&& s3.remove_result(hashes[2]) is Ok
            &&& !s4.insert_refused(2) && !s4.entries.contains_key(new_hash)
            &&& s4.inserted(2, new_hash, e).current_height() == 2
        }),
{
    assert(!s.entries.contains_key(hashes[0]));
    assert(!s.entries.contains_key(hashes[1]));
    assert(!s.entries.contains_key(hashes[2]));
    lemma_u32_le_round_trip(2);
    lemma_u32_be_round_trip(1);
    lemma_u32_be_round_trip(2);
    let s1 = s.inserted(0, hashes[0], entries[0]);
    let s2 = s1.inserted(1, hashes[1], entries[1]);
    let s3 = s2.inserted(2, hashes[2], entries[2]);
    assert(height_key(1) != height_key(2));
    assert(s3.hash_at[height_key(1)] == hashes[1]);
    assert(s3.height_of[hashes[2]] == le_u32(2));
    assert(s3.height_lookup(hashes[2]) == Ok::<u32, StorageError>(2));
}

/// In a consistent, non-empty index the block at the tip can be retracted:
/// its hash has a location and its height is the tip's.
pub proof fn lemma_tip_removable(s: IndexState)
    requires
        s.consistent(),
        0 < s.next <= MAX_HEIGHT + 1,
    ensures
        s.hash_at.contains_key(height_key((s.next - 1) as u32)),
        s.remove_result(s.hash_at[height_key((s.next - 1) as u32)]) is Ok,
{
    let top = (s.next - 1) as u32;
    let k = height_key(top);
    lemma_u32_be_round_trip(top);
    assert(s.hash_at.contains_key(k));
    let hash = s.hash_at[k];
    let hb = s.height_of[hash];
    assert(height_key(u32_of_le(hb)) == k);
    lemma_u32_be_round_trip(u32_of_le(hb));
    assert(s.height_of.contains_key(hash));
}

} // verus!
