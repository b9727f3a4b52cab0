//! The bookkeeping of the segmented flat-file store: which file is active,
//! where the next record goes, when a new file is started, and how a reader
//! walks from one file into the next. Each file `spsNNNNNN.dat` starts with
//! an eight-byte magic marker followed by serialized records back to back.
//! The files themselves are read and written by the caller, which hands the
//! results (a file's size, whether a file exists) to the functions below.

use vstd::prelude::*;
use vstd::string::StringExecFns;
use crate::block_data::{BlockData, encode_record};
use crate::block_index::{Index, IndexEntry, IndexState};
use crate::errors::StorageError;

verus! {

/// The subdirectory that holds the flat files.
pub const BLOCK_DATA_DIR_NAME: &'static str = "block_data";

/// The subdirectory that holds the index.
pub const INDEX_DIR_NAME: &'static str = "index_db";

/// The marker at the start of every flat file: `SPSDATA1`.
pub const MAGIC_BYTES: [u8; 8] = [0x53, 0x50, 0x53, 0x44, 0x41, 0x54, 0x41, 0x31];

/// The length of the magic marker.
pub const MAGIC_LEN: u64 = 8;

/// The default size cap of one flat file: 128 MiB.
pub const MAX_BLOCKDATA_SIZE: u64 = 134217728;

pub open spec fn magic() -> Seq<u8> {
    seq![0x53u8, 0x50u8, 0x53u8, 0x44u8, 0x41u8, 0x54u8, 0x41u8, 0x31u8]
}

/// The ASCII digit of `d`.
pub open spec fn digit_char(d: nat) -> char {
    if d == 0 { '0' } else if d == 1 { '1' } else if d == 2 { '2' } else if d == 3 { '3' } else if d
        == 4 { '4' } else if d == 5 { '5' } else if d == 6 { '6' } else if d == 7 { '7' } else if d
        == 8 { '8' } else { '9' }
}

/// The decimal digits of `n`, without leading zeros.
pub open spec fn decimal(n: nat) -> Seq<char>
    decreases n,
{
    if n < 10 {
        seq![digit_char(n)]
    } else {
        decimal(n / 10) + seq![digit_char(n % 10)]
    }
}

/// `s` preceded by as many zeros as bring it to `width` characters.
pub open spec fn zero_padded(s: Seq<char>, width: nat) -> Seq<char> {
    if s.len() >= width {
        s
    } else {
        Seq::new((width - s.len()) as nat, |i: int| '0') + s
    }
}

/// The name of flat file number `n`: `sps`, at least six decimal digits, `.dat`.
pub open spec fn file_name_of(n: u64) -> Seq<char> {
    seq!['s', 'p', 's'] + zero_padded(decimal(n as nat), 6) + seq!['.', 'd', 'a', 't']
}

/// The one-character string of the digit `d`.
fn digit_str(d: u8) -> (r: &'static str)
    requires
        d < 10,
    ensures
        r@ == seq![digit_char(d as nat)],
{
    match d {
        0 => {
            proof {
                reveal_strlit("0");
            }
            "0"
        },
        1 => {
            proof {
                reveal_strlit("1");
            }
            "1"
        },
        2 => {
            proof {
                reveal_strlit("2");
            }
            "2"
        },
        3 => {
            proof {
                reveal_strlit("3");
            }
            "3"
        },
        4 => {
            proof {
                reveal_strlit("4");
            }
            "4"
        },
        5 => {
            proof {
                reveal_strlit("5");
            }
            "5"
        },
        6 => {
            proof {
                reveal_strlit("6");
            }
            "6"
        },
        7 => {
            proof {
                reveal_strlit("7");
            }
            "7"
        },
        8 => {
            proof {
                reveal_strlit("8");
            }
            "8"
        },
        _ => {
            proof {
                reveal_strlit("9");
            }
            "9"
        },
    }
}

/// The name of flat file number `n`, as `format!("sps{:06}.dat", n)` writes it.
pub fn block_file_name(n: u64) -> (r: String)
    ensures
        r@ == file_name_of(n),
{
    // the digits of `n`, least significant first
    let mut digits: Vec<u8> = Vec::new();
    let ghost mut tail: Seq<char> = Seq::empty();
    let mut m: u64 = n;
    while m >= 10
        invariant
            decimal(n as nat) == decimal(m as nat) + tail,
            tail.len() == digits@.len(),
            forall|i: int|
                0 <= i < digits@.len() ==> tail[tail.len() - 1 - i] == digit_char(
                    #[trigger] digits@[i] as nat,
                ),
            forall|i: int| 0 <= i < digits@.len() ==> #[trigger] digits@[i] < 10,
        decreases m,
    {
        let d = (m % 10) as u8;
        let ghost old_digits = digits@;
        digits.push(d);
        proof {
            let prev = tail;
            tail = seq![digit_char(d as nat)] + prev;
            assert forall|i: int| 0 <= i < digits@.len() implies tail[tail.len() - 1 - i] == digit_char(
                #[trigger] digits@[i] as nat,
            ) by {
                if i < prev.len() {
                    assert(tail[tail.len() - 1 - i] == prev[prev.len() - 1 - i]);
                    assert(digits@[i] == old_digits[i]);
                }
            }
        }
        m = m / 10;
    }
    let ghost old_digits = digits@;
    digits.push(m as u8);
    proof {
        let prev = tail;
        tail = seq![digit_char(m as nat)] + prev;
        assert forall|i: int| 0 <= i < digits@.len() implies tail[tail.len() - 1 - i] == digit_char(
            #[trigger] digits@[i] as nat,
        ) by {
            if i < prev.len() {
                assert(tail[tail.len() - 1 - i] == prev[prev.len() - 1 - i]);
                assert(digits@[i] == old_digits[i]);
            }
        }
        assert(decimal(n as nat) =~= tail);
    }
    let ghost prefix = seq!['s', 'p', 's'];
    proof {
        reveal_strlit("sps");
        reveal_strlit(".dat");
    }
    let mut s = <String as StringExecFns>::from_str("sps");
    let width = digits.len();
    let mut pad: usize = 0;
    while pad + width < 6
        invariant
            width == tail.len(),
            pad + width <= 6 || pad == 0,
            s@ == prefix + Seq::new(pad as nat, |i: int| '0'),
        decreases 6 - pad,
    {
        proof {
            reveal_strlit("0");
        }
        s = s.concat("0");
        pad = pad + 1;
        assert(s@ =~= prefix + Seq::new(pad as nat, |i: int| '0'));
    }
    assert(prefix + Seq::new(pad as nat, |i: int| '0') + tail =~= prefix + zero_padded(tail, 6));
    let mut k: usize = width;
    while k > 0
        invariant
            k <= width,
            width == digits@.len(),
            width == tail.len(),
            forall|i: int| 0 <= i < digits@.len() ==> #[trigger] digits@[i] < 10,
            forall|i: int|
                0 <= i < digits@.len() ==> tail[tail.len() - 1 - i] == digit_char(
                    #[trigger] digits@[i] as nat,
                ),
            s@ == prefix + Seq::new(pad as nat, |i: int| '0') + tail.subrange(0, width - k),
        decreases k,
    {
        k = k - 1;
        s = s.concat(digit_str(digits[k]));
        assert(tail[tail.len() - 1 - k] == digit_char(digits@[k as int] as nat));
        assert(s@ =~= prefix + Seq::new(pad as nat, |i: int| '0') + tail.subrange(0, width - k));
    }
    assert(tail.subrange(0, width as int) =~= tail);
    let r = s.concat(".dat");
    assert(r@ =~= file_name_of(n));
    r
}

/// Whether `name` has the shape of a flat file's name: `sps`, at least six
/// decimal digits, `.dat`.
pub open spec fn is_block_file_name_spec(name: Seq<u8>) -> bool {
    &&& name.len() >= 13
    &&& name[0] == 0x73u8 && name[1] == 0x70u8 && name[2] == 0x73u8
    &&& name[name.len() - 4] == 0x2eu8 && name[name.len() - 3] == 0x64u8
    &&& name[name.len() - 2] == 0x61u8 && name[name.len() - 1] == 0x74u8
    &&& forall|i: int| 3 <= i < name.len() - 4 ==> 0x30u8 <= #[trigger] name[i] <= 0x39u8
}

/// Whether the file name `name` (its bytes) is that of a flat file.
pub fn is_block_file_name(name: &[u8]) -> (r: bool)
    ensures
        r == is_block_file_name_spec(name@),
{
    let n = name.len();
    if n < 13 {
        return false;
    }
    if !(name[0] == 0x73 && name[1] == 0x70 && name[2] == 0x73) {
        return false;
    }
    if !(name[n - 4] == 0x2e && name[n - 3] == 0x64 && name[n - 2] == 0x61 && name[n - 1] == 0x74) {
        return false;
    }
    let mut i: usize = 3;
    while i < n - 4
        invariant
            n == name@.len(),
            n >= 13,
            3 <= i <= n - 4,
            forall|k: int| 3 <= k < i ==> 0x30u8 <= #[trigger] name@[k] <= 0x39u8,
        decreases n - 4 - i,
    {
        if name[i] < 0x30 || name[i] > 0x39 {
            return false;
        }
        i = i + 1;
    }
    true
}

/// What the caller found in the block-data directory at start-up.
pub struct DataFiles {
    /// Whether file number 0 exists.
    pub first_file_exists: bool,
    /// Whether other numbered files exist (consulted when file 0 is absent).
    pub other_files_exist: bool,
    /// The highest file number reached from 0 through existing files.
    pub last_file_number: u64,
}

/// Where the next record goes.
pub struct AppendPlan {
    /// Whether a new file must be started (with the magic marker) first.
    pub rotate: bool,
    /// The location the record will have.
    pub entry: IndexEntry,
    /// The serialized record.
    pub bytes: Vec<u8>,
}

/// Whether a record of `len` bytes, appended to a file of `file_size` bytes,
/// would reach the cap `max`.
pub open spec fn rotation_needed(file_size: u64, len: nat, max: u64) -> bool {
    file_size + len >= max
}

/// The location of a record of `len` bytes appended while file `current`
/// holds `file_size` bytes.
pub open spec fn planned_entry(current: u64, file_size: u64, len: nat, max: u64) -> IndexEntry {
    if rotation_needed(file_size, len, max) {
        IndexEntry { file_number: (current + 1) as u64, offset: MAGIC_LEN, length: len as u64 }
    } else {
        IndexEntry { file_number: current, offset: file_size, length: len as u64 }
    }
}

/// A reader's place in the flat files: a file number and a byte offset in it.
pub struct StreamCursor {
    pub file_number: u64,
    pub position: u64,
}

impl StreamCursor {
    /// A cursor at the start of the record that `entry` locates.
    pub fn new(entry: &IndexEntry) -> (r: StreamCursor)
        ensures
            r.file_number == entry.file_number,
            r.position == entry.offset,
    {
        StreamCursor { file_number: entry.file_number, position: entry.offset }
    }

    /// Accounts for `n` bytes read from the current file.
    pub fn consumed(&mut self, n: usize)
        requires
            old(self).position + n <= u64::MAX,
        ensures
            final(self).file_number == old(self).file_number,
            final(self).position == old(self).position + n,
    {
        self.position = self.position + n as u64;
    }

    /// At the end of the current file: moves past the magic marker of the
    /// next file when that file exists; otherwise the stream has ended and the
    /// cursor stays.
    pub fn on_end_of_file(&mut self, next_exists: bool) -> (moved: bool)
        ensures
            moved == (next_exists && old(self).file_number < u64::MAX),
            moved ==> final(self).file_number == old(self).file_number + 1 && final(self).position
                == MAGIC_LEN,
            !moved ==> *final(self) == *old(self),
    {
        if next_exists && self.file_number < u64::MAX {
            self.file_number = self.file_number + 1;
            self.position = MAGIC_LEN;
            true
        } else {
            false
        }
    }
}

/// Every file starts with the magic marker.
pub open spec fn files_wf(fs: Seq<Seq<u8>>) -> bool {
    forall|k: int|
        0 <= k < fs.len() ==> (#[trigger] fs[k]).len() >= 8 && fs[k].subrange(0, 8) == magic()
}

/// The records held by files `k` and later, without their magic markers.
pub open spec fn data_after(fs: Seq<Seq<u8>>, k: int) -> Seq<u8>
    decreases fs.len() - k,
{
    if 0 <= k < fs.len() {
        fs[k].subrange(8, fs[k].len() as int) + data_after(fs, k + 1)
    } else {
        Seq::empty()
    }
}

/// What a reader at byte `pos` of file `f` yields until the files run out.
pub open spec fn stream_from(fs: Seq<Seq<u8>>, f: int, pos: int) -> Seq<u8> {
    fs[f].subrange(pos, fs[f].len() as int) + data_after(fs, f + 1)
}

/// The files after `bytes` were appended: to a new file that starts with the
/// magic marker when `rotate`, else to the last file.
pub open spec fn appended(fs: Seq<Seq<u8>>, rotate: bool, bytes: Seq<u8>) -> Seq<Seq<u8>> {
    if rotate {
        fs.push(magic() + bytes)
    } else {
        fs.update(fs.len() - 1, fs.last() + bytes)
    }
}

/// The files after each record was appended in turn, rotating as told.
pub open spec fn appended_all(fs: Seq<Seq<u8>>, rotations: Seq<bool>, records: Seq<Seq<u8>>) -> Seq<
    Seq<u8>,
>
    decreases records.len(),
{
    if records.len() == 0 || rotations.len() < records.len() {
        fs
    } else {
        appended(
            appended_all(fs, rotations.drop_last(), records.drop_last()),
            rotations[records.len() - 1],
            records.last(),
        )
    }
}

/// The records laid end to end.
pub open spec fn concat_records(records: Seq<Seq<u8>>) -> Seq<u8>
    decreases records.len(),
{
    if records.len() == 0 {
        Seq::empty()
    } else {
        concat_records(records.drop_last()) + records.last()
    }
}

/// Reading `n` bytes that the current file still holds leaves exactly the
/// rest of the stream.
pub proof fn lemma_stream_read(fs: Seq<Seq<u8>>, f: int, pos: int, n: int)
    requires
        0 <= f < fs.len(),
        0 <= pos,
        0 <= n,
        pos + n <= fs[f].len(),
    ensures
        fs[f].subrange(pos, pos + n) + stream_from(fs, f, pos + n) == stream_from(fs, f, pos),
{
    assert(fs[f].subrange(pos, pos + n) + fs[f].subrange(pos + n, fs[f].len() as int) =~= fs[f].subrange(
        pos,
        fs[f].len() as int,
    ));
}

/// At the end of a file that has a successor, the stream goes on right after
/// the successor's magic marker.
pub proof fn lemma_stream_file_boundary(fs: Seq<Seq<u8>>, f: int)
    requires
        files_wf(fs),
        0 <= f,
        f + 1 < fs.len(),
    ensures
        stream_from(fs, f, fs[f].len() as int) == stream_from(fs, f + 1, MAGIC_LEN as int),
{
    assert(fs[f].subrange(fs[f].len() as int, fs[f].len() as int) =~= Seq::<u8>::empty());
    assert(stream_from(fs, f, fs[f].len() as int) =~= data_after(fs, f + 1));
}

/// At the end of the last file the stream is over.
pub proof fn lemma_stream_end(fs: Seq<Seq<u8>>, f: int)
    requires
        0 <= f,
        f + 1 == fs.len(),
    ensures
        stream_from(fs, f, fs[f].len() as int) == Seq::<u8>::empty(),
{
    assert(fs[f].subrange(fs[f].len() as int, fs[f].len() as int) =~= Seq::<u8>::empty());
    assert(stream_from(fs, f, fs[f].len() as int) =~= Seq::<u8>::empty());
}

proof fn lemma_data_after_append(fs: Seq<Seq<u8>>, k: int, rotate: bool, bytes: Seq<u8>)
    requires
        files_wf(fs),
        fs.len() > 0,
        0 <= k,
        rotate ==> k <= fs.len(),
        !rotate ==> k < fs.len(),
    ensures
        data_after(appended(fs, rotate, bytes), k) == data_after(fs, k) + bytes,
    decreases fs.len() - k,
{
    let g = appended(fs, rotate, bytes);
    if k == fs.len() {
        assert((magic() + bytes).subrange(8, (magic() + bytes).len() as int) =~= bytes);
        assert(data_after(g, k + 1) == Seq::<u8>::empty());
        assert(data_after(fs, k) == Seq::<u8>::empty());
        assert(data_after(g, k) =~= data_after(fs, k) + bytes);
    } else if !rotate && k == fs.len() - 1 {
        assert(g[k].subrange(8, g[k].len() as int) =~= fs[k].subrange(8, fs[k].len() as int) + bytes);
        assert(data_after(g, k + 1) == Seq::<u8>::empty());
        assert(data_after(fs, k + 1) == Seq::<u8>::empty());
        assert(data_after(g, k) =~= data_after(fs, k) + bytes);
    } else {
        lemma_data_after_append(fs, k + 1, rotate, bytes);
        assert(g[k] == fs[k]);
        assert(data_after(g, k) =~= data_after(fs, k) + bytes);
    }
}

/// Appending a record keeps every file starting with the magic marker, and
/// a reader positioned anywhere in the earlier files now also yields the new
/// record, right after what it yielded before.
pub proof fn lemma_stream_append(fs: Seq<Seq<u8>>, f: int, pos: int, rotate: bool, bytes: Seq<u8>)
    requires
        files_wf(fs),
        0 <= f < fs.len(),
        0 <= pos <= fs[f].len(),
    ensures
        files_wf(appended(fs, rotate, bytes)),
        stream_from(appended(fs, rotate, bytes), f, pos) == stream_from(fs, f, pos) + bytes,
{
    let g = appended(fs, rotate, bytes);
    assert forall|k: int| 0 <= k < g.len() implies (#[trigger] g[k]).len() >= 8 && g[k].subrange(0, 8)
        == magic() by {
        if rotate && k == fs.len() {
            assert(g[k].subrange(0, 8) =~= magic());
        } else if !rotate && k == fs.len() - 1 {
            assert(g[k].subrange(0, 8) =~= fs[k].subrange(0, 8));
        }
    }
    if !rotate && f == fs.len() - 1 {
        assert(data_after(g, f + 1) == Seq::<u8>::empty());
        assert(data_after(fs, f + 1) == Seq::<u8>::empty());
        assert(stream_from(g, f, pos) =~= stream_from(fs, f, pos) + bytes);
    } else {
        lemma_data_after_append(fs, f + 1, rotate, bytes);
        assert(g[f] == fs[f]);
        assert(stream_from(g, f, pos) =~= stream_from(fs, f, pos) + bytes);
    }
}

/// A reader positioned in the files before a run of appends yields, after
/// what it yielded before, exactly the appended records end to end: no gap,
/// no repetition and no magic marker between them.
pub proof fn lemma_stream_of_appends(
    fs: Seq<Seq<u8>>,
    f: int,
    pos: int,
    rotations: Seq<bool>,
    records: Seq<Seq<u8>>,
)
    requires
        files_wf(fs),
        0 <= f < fs.len(),
        0 <= pos <= fs[f].len(),
        rotations.len() == records.len(),
    ensures
        files_wf(appended_all(fs, rotations, records)),
        f < appended_all(fs, rotations, records).len(),
        appended_all(fs, rotations, records)[f].len() >= fs[f].len(),
        stream_from(appended_all(fs, rotations, records), f, pos) == stream_from(fs, f, pos)
            + concat_records(records),
    decreases records.len(),
{
    if records.len() == 0 {
        assert(stream_from(fs, f, pos) + concat_records(records) =~= stream_from(fs, f, pos));
    } else {
        let rs = rotations.drop_last();
        let rc = records.drop_last();
        lemma_stream_of_appends(fs, f, pos, rs, rc);
        let mid = appended_all(fs, rs, rc);
        lemma_stream_append(mid, f, pos, rotations[records.len() - 1], records.last());
        let g = appended(mid, rotations[records.len() - 1], records.last());
        assert(g[f].len() >= mid[f].len());
        assert(stream_from(fs, f, pos) + concat_records(records) =~= stream_from(fs, f, pos)
            + concat_records(rc) + records.last());
    }
}

/// The location planned for a record holds exactly its bytes once they are
/// appended. When the record would bring the active file to the cap, it is
/// the first record of a new file that starts with the magic marker, at the
/// offset right after the marker.
pub proof fn lemma_record_at_planned_entry(fs: Seq<Seq<u8>>, bytes: Seq<u8>, max: u64)
    requires
        files_wf(fs),
        0 < fs.len() < u64::MAX,
        fs.last().len() <= u64::MAX,
        bytes.len() <= u64::MAX,
    ensures
        ({
            let current = (fs.len() - 1) as u64;
            let size = fs.last().len() as u64;
            let rotate = rotation_needed(size, bytes.len(), max);
            let e = planned_entry(current, size, bytes.len(), max);
            let g = appended(fs, rotate, bytes);
            &&& e.file_number == g.len() - 1
            &&& g[e.file_number as int].subrange(e.offset as int, e.offset + e.length) == bytes
            &&& rotate ==> g.len() == fs.len() + 1 && g.last().subrange(0, 8) == magic()
                && e.offset == MAGIC_LEN
            &&& !rotate ==> g.len() == fs.len() && e.offset == size
        }),
{
    let size = fs.last().len() as u64;
    let rotate = rotation_needed(size, bytes.len(), max);
    let g = appended(fs, rotate, bytes);
    if rotate {
        assert((magic() + bytes).subrange(8, (8 + bytes.len()) as int) =~= bytes);
        assert((magic() + bytes).subrange(0, 8) =~= magic());
    } else {
        assert((fs.last() + bytes).subrange(size as int, (size + bytes.len()) as int) =~= bytes);
    }
}

/// The outcome of opening a store, given whether its index was created just
/// now: a gap before the first file, a fresh index beside existing files, or
/// the number of the active file.
pub open spec fn open_outcome(fresh: bool, files: DataFiles) -> Result<u64, StorageError> {
    if !files.first_file_exists && files.other_files_exist {
        Err(StorageError::CorruptDB("Missing sps000000.dat, but other files present"))
    } else if fresh && files.first_file_exists {
        Err(StorageError::Fatal("Block data directory already exists but index is newly created"))
    } else if files.first_file_exists {
        Ok(files.last_file_number)
    } else {
        Ok(0)
    }
}

/// Decides how a store opens, from what the caller found among the flat
/// files and whether the index was created just now.
pub fn open_decision(fresh: bool, files: &DataFiles) -> (r: Result<u64, StorageError>)
    ensures
        r == open_outcome(fresh, *files),
{
    if !files.first_file_exists && files.other_files_exist {
        Err(StorageError::CorruptDB("Missing sps000000.dat, but other files present"))
    } else if fresh && files.first_file_exists {
        Err(StorageError::Fatal("Block data directory already exists but index is newly created"))
    } else if files.first_file_exists {
        Ok(files.last_file_number)
    } else {
        Ok(0)
    }
}

/// The state of a store: its index, whether that index was created when the
/// store was opened, its active file and its size cap.
pub struct StoreState {
    pub index: IndexState,
    pub index_created: bool,
    pub active_file: u64,
    pub max_file_size: u64,
}

/// The store's bookkeeping: the index, the active file's number and the cap.
pub struct FlatFileStore {
    index: Index,
    index_created: bool,
    current_file_number: u64,
    max_file_size: u64,
}

impl View for FlatFileStore {
    type V = StoreState;

    closed spec fn view(&self) -> StoreState {
        StoreState {
            index: self.index@,
            index_created: self.index_created,
            active_file: self.current_file_number,
            max_file_size: self.max_file_size,
        }
    }
}

impl FlatFileStore {
    pub closed spec fn wf(&self) -> bool {
        self.index.wf()
    }

    /// Opens the store whose index lives at `index_dir`, given what the caller
    /// found among the flat files, with the default size cap.
    pub fn initialize(index_dir: &std::path::PathBuf, files: &DataFiles) -> (r: Result<
        FlatFileStore,
        StorageError,
    >)
        ensures
            !files.first_file_exists && files.other_files_exist ==> r == Err::<
                FlatFileStore,
                StorageError,
            >(StorageError::CorruptDB("Missing sps000000.dat, but other files present")),
            r matches Ok(s) ==> {
                &&& s.wf()
                &&& s@.max_file_size == MAX_BLOCKDATA_SIZE
                &&& open_outcome(s@.index_created, *files) == Ok::<u64, StorageError>(s@.active_file)
                &&& !(s@.index_created && files.first_file_exists)
                &&& s@.index_created ==> s@.index.next == 0 && s@.index.consistent()
            },
            r is Err ==> r matches Err(StorageError::DbError(_)) || r matches Err(
                StorageError::CorruptDB(_),
            ) || (r matches Err(StorageError::Fatal(_)) && files.first_file_exists),
            r matches Err(StorageError::CorruptDB(m)) ==> (m == "Missing sps000000.dat, but other files present"
                && !files.first_file_exists && files.other_files_exist) || m
                == "height key is not 4 bytes" || m == "height out of range" || m
                == "newly created index is not empty",
    {
        Self::initialize_with_cap(index_dir, files, MAX_BLOCKDATA_SIZE)
    }

    /// As [`FlatFileStore::initialize`], with files capped at `max_file_size` bytes.
    /// A missing file 0 beside other numbered files is a gap, refused before
    /// the index is opened; existing files with a freshly created index cannot
    /// be reconciled.
    pub fn initialize_with_cap(
        index_dir: &std::path::PathBuf,
        files: &DataFiles,
        max_file_size: u64,
    ) -> (r: Result<FlatFileStore, StorageError>)
        ensures
            !files.first_file_exists && files.other_files_exist ==> r == Err::<
                FlatFileStore,
                StorageError,
            >(StorageError::CorruptDB("Missing sps000000.dat, but other files present")),
            r matches Ok(s) ==> {
                &&& s.wf()
                &&& s@.max_file_size == max_file_size
                &&& open_outcome(s@.index_created, *files) == Ok::<u64, StorageError>(s@.active_file)
                &&& !(s@.index_created && files.first_file_exists)
                &&& s@.index_created ==> s@.index.next == 0 && s@.index.consistent()
            },
            r is Err ==> r matches Err(StorageError::DbError(_)) || r matches Err(
                StorageError::CorruptDB(_),
            ) || (r matches Err(StorageError::Fatal(_)) && files.first_file_exists),
            r matches Err(StorageError::CorruptDB(m)) ==> (m == "Missing sps000000.dat, but other files present"
                && !files.first_file_exists && files.other_files_exist) || m
                == "height key is not 4 bytes" || m == "height out of range" || m
                == "newly created index is not empty",
    {
        if !files.first_file_exists && files.other_files_exist {
            return Err(StorageError::CorruptDB("Missing sps000000.dat, but other files present"));
        }
        let (index, fresh) = match Index::initialize(index_dir) {
            Ok(p) => p,
            Err(e) => return Err(e),
        };
        let current_file_number = match open_decision(fresh, files) {
            Ok(n) => n,
            Err(e) => return Err(e),
        };
        Ok(FlatFileStore { index, index_created: fresh, current_file_number, max_file_size })
    }

    /// Decides where `block` goes when the active file holds `file_size`
    /// bytes: refuses a height other than the index's next expected one, a
    /// block hash the index already holds, and a record whose tweak count does
    /// not fit its count field; otherwise serializes the record and starts a
    /// new file first when appending it would reach the cap, so that no record
    /// is split across files. Nothing is refused after bytes are written.
    pub fn prepare_append(&self, block: &BlockData, height: u32, file_size: u64) -> (r: Result<
        AppendPlan,
        StorageError,
    >)
        ensures
            self@.index.insert_refused(height) ==> r == Err::<AppendPlan, StorageError>(
                StorageError::InvalidHeight,
            ),
            !self@.index.insert_refused(height) && self@.index.entries.contains_key(block.blockhash@)
                ==> r == Err::<AppendPlan, StorageError>(StorageError::DuplicateBlock) || r matches Err(
                StorageError::DbError(_),
            ),
            r is Ok ==> !self@.index.insert_refused(height) && !self@.index.entries.contains_key(
                block.blockhash@,
            ),
            !self@.index.insert_refused(height) && !self@.index.entries.contains_key(block.blockhash@)
                && block.tweaks@.len() > u32::MAX ==> r == Err::<AppendPlan, StorageError>(
                StorageError::InvalidData("too many tweaks for one record"),
            ) || r matches Err(StorageError::DbError(_)),
            r matches Ok(p) ==> {
                &&& block.tweaks@.len() <= u32::MAX
                &&& p.bytes@ == encode_record(block@)
                &&& p.rotate == rotation_needed(file_size, p.bytes@.len(), self@.max_file_size)
                &&& p.entry == planned_entry(
                    self@.active_file,
                    file_size,
                    p.bytes@.len(),
                    self@.max_file_size,
                )
            },
            !self@.index.insert_refused(height) && !self@.index.entries.contains_key(block.blockhash@)
                && block.tweaks@.len() <= u32::MAX && r is Err ==> r matches Err(StorageError::DbError(_)) || {
                let len = encode_record(block@).len();
                &&& rotation_needed(file_size, len, self@.max_file_size)
                &&& self@.active_file == u64::MAX
                &&& r == Err::<AppendPlan, StorageError>(StorageError::CorruptDB("no file number left"))
            },
    {
        if self.index.next_expected_height() != height || height > crate::block_index::MAX_HEIGHT {
            return Err(StorageError::InvalidHeight);
        }
        match self.index.contains_block(&block.blockhash) {
            Ok(true) => return Err(StorageError::DuplicateBlock),
            Ok(false) => {},
            Err(e) => return Err(e),
        }
        if block.tweaks.len() > 0xffff_ffff {
            return Err(StorageError::InvalidData("too many tweaks for one record"));
        }
        let bytes = block.serialize();
        let len = bytes.len() as u64;
        let rotate = file_size >= self.max_file_size || len >= self.max_file_size - file_size;
        if rotate {
            if self.current_file_number == u64::MAX {
                return Err(StorageError::CorruptDB("no file number left"));
            }
            let entry = IndexEntry {
                file_number: self.current_file_number + 1,
                offset: MAGIC_LEN,
                length: len,
            };
            Ok(AppendPlan { rotate, entry, bytes })
        } else {
            let entry = IndexEntry {
                file_number: self.current_file_number,
                offset: file_size,
                length: len,
            };
            Ok(AppendPlan { rotate, entry, bytes })
        }
    }

    /// Records a block whose bytes have been written as `plan` says: the
    /// planned file becomes the active one and the index learns the block's
    /// height, hash and location. A refused height or a known hash is
    /// reported as such and leaves the index unchanged; any other failure of
    /// the index is fatal, as the bytes are already on disk.
    pub fn record_append(&mut self, blockhash: &[u8; 32], height: u32, plan: &AppendPlan) -> (r:
        Result<(), StorageError>)
        requires
            old(self).wf(),
        ensures
            final(self).wf(),
            final(self)@.active_file == plan.entry.file_number,
            final(self)@.max_file_size == old(self)@.max_file_size,
            final(self)@.index_created == old(self)@.index_created,
            old(self)@.index.insert_refused(height) ==> r == Err::<(), StorageError>(
                StorageError::InvalidHeight,
            ) && final(self)@.index == old(self)@.index,
            !old(self)@.index.insert_refused(height) && old(self)@.index.entries.contains_key(blockhash@)
                ==> final(self)@.index == old(self)@.index && (r == Err::<(), StorageError>(
                StorageError::DuplicateBlock,
            ) || r == Err::<(), StorageError>(
                StorageError::Fatal("Failed to insert block into index"),
            )),
            r is Ok ==> final(self)@.index == old(self)@.index.inserted(height, blockhash@, plan.entry),
            old(self)@.index.consistent() && r is Ok ==> final(self)@.index.consistent(),
            !old(self)@.index.insert_refused(height) && !old(self)@.index.entries.contains_key(blockhash@)
                ==> r is Ok || r == Err::<(), StorageError>(
                StorageError::Fatal("Failed to insert block into index"),
            ),
    {
        self.current_file_number = plan.entry.file_number;
        match self.index.insert_block(height, blockhash, &plan.entry) {
            Ok(()) => Ok(()),
            Err(StorageError::InvalidHeight) => Err(StorageError::InvalidHeight),
            Err(StorageError::DuplicateBlock) => Err(StorageError::DuplicateBlock),
            Err(_) => Err(StorageError::Fatal("Failed to insert block into index")),
        }
    }

    /// Retracts the tip block `blockhash` from the index; its bytes stay in
    /// the files.
    pub fn remove_block(&mut self, blockhash: &[u8; 32]) -> (r: Result<(), StorageError>)
        requires
            old(self).wf(),
        ensures
            final(self).wf(),
            final(self)@.active_file == old(self)@.active_file,
            final(self)@.max_file_size == old(self)@.max_file_size,
            final(self)@.index_created == old(self)@.index_created,
            r is Ok ==> old(self)@.index.remove_result(blockhash@) is Ok && final(self)@.index == old(
                self,
            )@.index.removed(blockhash@),
            r is Err && !(r matches Err(StorageError::DbError(_))) ==> r == old(self)@.index.remove_result(blockhash@)
                && final(self)@.index == old(self)@.index,
            old(self)@.index.consistent() && r is Ok ==> final(self)@.index.consistent(),
    {
        self.index.remove_block(blockhash)
    }

    /// The location of block `blockhash`.
    pub fn get_block_entry(&self, blockhash: &[u8; 32]) -> (r: Result<IndexEntry, StorageError>)
        ensures
            r matches Err(StorageError::DbError(_)) || r == self@.index.entry_lookup(blockhash@),
    {
        self.index.get_block_entry(blockhash)
    }

    /// The location of the block at `height`.
    pub fn get_block_entry_at_height(&self, height: u32) -> (r: Result<IndexEntry, StorageError>)
        ensures
            r matches Err(StorageError::DbError(_)) || match self@.index.hash_lookup(height) {
                Ok(h) => r == self@.index.entry_lookup(h),
                Err(e) => r == Err::<IndexEntry, StorageError>(e),
            },
    {
        let blockhash = match self.index.get_blockhash_by_height(height) {
            Ok(h) => h,
            Err(e) => return Err(e),
        };
        self.index.get_block_entry(&blockhash)
    }

    /// The number of the file that receives appends.
    pub fn current_file_number(&self) -> (r: u64)
        ensures
            r == self@.active_file,
    {
        self.current_file_number
    }

    /// The index of the store.
    pub fn index(&self) -> (r: &Index)
        ensures
            r@ == self@.index,
            self.wf() ==> r.wf(),
    {
        &self.index
    }
}

} // verus!
