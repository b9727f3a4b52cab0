//! The binary record of one block's tweaks:
//! `hash (32) | tweak count (u32 LE) | CRC-32 of the tweaks (u32 LE) | tweaks (count x 33)`.

use vstd::prelude::*;
use crate::checksum::{crc32, crc32_of};
use crate::errors::StorageError;
use crate::int_bytes::{le_u32, u32_of_le, push_u32_le, read_u32_le, lemma_u32_le_round_trip};

verus! {

/// The size of one tweak in bytes.
pub const TWEAK_SIZE: usize = 33;

/// The size of a block hash in bytes.
pub const BLOCKHASH_SIZE: usize = 32;

/// The size of a record's fixed header: hash, tweak count and checksum.
pub const RECORD_HEADER_SIZE: usize = 40;

/// One block's tweak data.
#[derive(Debug, PartialEq)]
pub struct BlockData {
    pub blockhash: [u8; 32],
    pub tweaks: Vec<[u8; TWEAK_SIZE]>,
}

/// The mathematical content of a [`BlockData`].
pub struct BlockRecord {
    pub blockhash: Seq<u8>,
    pub tweaks: Seq<Seq<u8>>,
}

impl View for BlockData {
    type V = BlockRecord;

    open spec fn view(&self) -> BlockRecord {
        BlockRecord { blockhash: self.blockhash@, tweaks: self.tweaks@.map_values(|t: [u8; 33]| t@) }
    }
}

/// A record that can be written: a 32-byte hash, 33-byte tweaks, and a tweak
/// count that fits the record's `u32` count field.
pub open spec fn record_wf(r: BlockRecord) -> bool {
    &&& r.blockhash.len() == 32
    &&& r.tweaks.len() <= u32::MAX
    &&& forall|i: int| 0 <= i < r.tweaks.len() ==> (#[trigger] r.tweaks[i]).len() == 33
}

/// The tweaks laid end to end.
pub open spec fn concat_tweaks(tweaks: Seq<Seq<u8>>) -> Seq<u8>
    decreases tweaks.len(),
{
    if tweaks.len() == 0 {
        Seq::empty()
    } else {
        concat_tweaks(tweaks.drop_last()) + tweaks.last()
    }
}

/// The `n` consecutive 33-byte tweaks at the start of `payload`.
pub open spec fn split_tweaks(payload: Seq<u8>, n: nat) -> Seq<Seq<u8>> {
    Seq::new(n, |i: int| payload.subrange(33 * i, 33 * i + 33))
}

/// The serialized form of a record.
pub open spec fn encode_record(r: BlockRecord) -> Seq<u8> {
    r.blockhash + le_u32(r.tweaks.len() as u32) + le_u32(crc32_of(concat_tweaks(r.tweaks)))
        + concat_tweaks(r.tweaks)
}

/// The record that `d` starts with, or the first reason why it holds none.
/// Bytes after the record are ignored.
pub open spec fn decode_record(d: Seq<u8>) -> Result<BlockRecord, StorageError> {
    if d.len() < 32 {
        Err(StorageError::DeserializeError("insufficient data for blockhash"))
    } else if d.len() < 36 {
        Err(StorageError::DeserializeError("insufficient data for lenTweaks"))
    } else if d.len() < 40 {
        Err(StorageError::DeserializeError("insufficient data for CRC"))
    } else {
        let n = u32_of_le(d.subrange(32, 36));
        let end = 40 + 33 * n;
        if d.len() < end {
            Err(StorageError::DeserializeError("insufficient data for tweaks"))
        } else if crc32_of(d.subrange(40, end)) != u32_of_le(d.subrange(36, 40)) {
            Err(StorageError::CrcMismatch)
        } else {
            Ok(
                BlockRecord {
                    blockhash: d.subrange(0, 32),
                    tweaks: split_tweaks(d.subrange(40, end), n as nat),
                },
            )
        }
    }
}

pub proof fn lemma_concat_tweaks_len(t: Seq<Seq<u8>>)
    requires
        forall|i: int| 0 <= i < t.len() ==> (#[trigger] t[i]).len() == 33,
    ensures
        concat_tweaks(t).len() == 33 * t.len(),
    decreases t.len(),
{
    if t.len() > 0 {
        lemma_concat_tweaks_len(t.drop_last());
    }
}

pub proof fn lemma_concat_tweaks_index(t: Seq<Seq<u8>>, i: int)
    requires
        forall|k: int| 0 <= k < t.len() ==> (#[trigger] t[k]).len() == 33,
        0 <= i < t.len(),
    ensures
        concat_tweaks(t).subrange(33 * i, 33 * i + 33) == t[i],
    decreases t.len(),
{
    let p = t.drop_last();
    lemma_concat_tweaks_len(p);
    if i < t.len() - 1 {
        lemma_concat_tweaks_index(p, i);
        assert(concat_tweaks(t).subrange(33 * i, 33 * i + 33) =~= concat_tweaks(p).subrange(
            33 * i,
            33 * i + 33,
        ));
    } else {
        assert(concat_tweaks(t).subrange(33 * i, 33 * i + 33) =~= t.last());
    }
}

pub proof fn lemma_split_concat(t: Seq<Seq<u8>>)
    requires
        forall|k: int| 0 <= k < t.len() ==> (#[trigger] t[k]).len() == 33,
    ensures
        split_tweaks(concat_tweaks(t), t.len()) == t,
{
    assert forall|i: int| 0 <= i < t.len() implies #[trigger] split_tweaks(concat_tweaks(t), t.len())[i]
        == t[i] by {
        lemma_concat_tweaks_index(t, i);
    }
    assert(split_tweaks(concat_tweaks(t), t.len()) =~= t);
}

/// Decoding the serialized form of a record gives the record back.
pub proof fn lemma_record_round_trip(r: BlockRecord)
    requires
        record_wf(r),
    ensures
        decode_record(encode_record(r)) == Ok::<BlockRecord, StorageError>(r),
{
    let t = concat_tweaks(r.tweaks);
    let n = r.tweaks.len() as u32;
    let d = encode_record(r);
    lemma_concat_tweaks_len(r.tweaks);
    lemma_u32_le_round_trip(n);
    lemma_u32_le_round_trip(crc32_of(t));
    assert(d.subrange(32, 36) =~= le_u32(n));
    assert(d.subrange(36, 40) =~= le_u32(crc32_of(t)));
    assert(d.subrange(40, 40 + 33 * n) =~= t);
    assert(d.subrange(0, 32) =~= r.blockhash);
    lemma_split_concat(r.tweaks);
}

/// Of two byte strings that agree on a record's header and differ only inside
/// its tweak payload, the altered one is rejected with a checksum mismatch
/// whenever the CRC-32 of its payload differs from the stored one, and never
/// with a truncation error.
pub proof fn lemma_payload_change_rejected(r: BlockRecord, d: Seq<u8>)
    requires
        record_wf(r),
        d.len() == encode_record(r).len(),
        d.subrange(0, 40) == encode_record(r).subrange(0, 40),
        crc32_of(d.subrange(40, d.len() as int)) != crc32_of(concat_tweaks(r.tweaks)),
    ensures
        decode_record(d) == Err::<BlockRecord, StorageError>(StorageError::CrcMismatch),
{
    let e = encode_record(r);
    let n = r.tweaks.len() as u32;
    lemma_concat_tweaks_len(r.tweaks);
    lemma_u32_le_round_trip(n);
    lemma_u32_le_round_trip(crc32_of(concat_tweaks(r.tweaks)));
    assert(d.subrange(32, 36) =~= d.subrange(0, 40).subrange(32, 36));
    assert(e.subrange(32, 36) =~= e.subrange(0, 40).subrange(32, 36));
    assert(d.subrange(36, 40) =~= d.subrange(0, 40).subrange(36, 40));
    assert(e.subrange(36, 40) =~= e.subrange(0, 40).subrange(36, 40));
    assert(e.subrange(32, 36) =~= le_u32(n));
    assert(e.subrange(36, 40) =~= le_u32(crc32_of(concat_tweaks(r.tweaks))));
}

/// The bytes of `src`, as a 33-byte tweak, starting at `at`.
fn tweak_at(src: &[u8], at: usize) -> (t: [u8; TWEAK_SIZE])
    requires
        at + 33 <= src@.len(),
    ensures
        t@ == src@.subrange(at as int, at + 33),
{
    let mut t = [0u8; TWEAK_SIZE];
    let len = src.len();
    let mut j: usize = 0;
    while j < TWEAK_SIZE
        invariant
            j <= 33,
            len == src@.len(),
            at + 33 <= src@.len(),
            forall|k: int| 0 <= k < j ==> t@[k] == src@[at + k],
        decreases 33 - j,
    {
        t[j] = src[at + j];
        j = j + 1;
    }
    assert(t@ =~= src@.subrange(at as int, at + 33));
    t
}

impl BlockData {
    /// The serialized form of the record.
    pub fn serialize(&self) -> (r: Vec<u8>)
        requires
            self.tweaks@.len() <= u32::MAX,
        ensures
            r@ == encode_record(self@),
    {
        let ghost tw = self@.tweaks;
        let mut payload: Vec<u8> = Vec::new();
        let mut i: usize = 0;
        while i < self.tweaks.len()
            invariant
                i <= self.tweaks@.len(),
                tw == self@.tweaks,
                payload@ == concat_tweaks(tw.subrange(0, i as int)),
            decreases self.tweaks@.len() - i,
        {
            let tweak = &self.tweaks[i];
            let ghost before = payload@;
            let mut j: usize = 0;
            while j < TWEAK_SIZE
                invariant
                    j <= 33,
                    payload@ == before + tweak@.subrange(0, j as int),
                decreases 33 - j,
            {
                payload.push(tweak[j]);
                j = j + 1;
                assert(payload@ =~= before + tweak@.subrange(0, j as int));
            }
            assert(tw.subrange(0, i + 1).drop_last() =~= tw.subrange(0, i as int));
            assert(tweak@.subrange(0, 33) =~= tweak@);
            i = i + 1;
        }
        assert(tw.subrange(0, i as int) =~= tw);
        let crc = crc32(payload.as_slice());
        let mut buf: Vec<u8> = Vec::new();
        let mut k: usize = 0;
        while k < BLOCKHASH_SIZE
            invariant
                k <= 32,
                buf@ == self.blockhash@.subrange(0, k as int),
            decreases 32 - k,
        {
            buf.push(self.blockhash[k]);
            k = k + 1;
            assert(buf@ =~= self.blockhash@.subrange(0, k as int));
        }
        assert(self.blockhash@.subrange(0, 32) =~= self.blockhash@);
        push_u32_le(&mut buf, self.tweaks.len() as u32);
        push_u32_le(&mut buf, crc);
        buf.append(&mut payload);
        buf
    }

    /// Reads the record at the start of `data`, checking its length fields and
    /// its checksum; bytes after the record are ignored.
    pub fn deserialize(data: &[u8]) -> (r: Result<BlockData, StorageError>)
        ensures
            match r {
                Ok(b) => decode_record(data@) == Ok::<BlockRecord, StorageError>(b@),
                Err(e) => decode_record(data@) == Err::<BlockRecord, StorageError>(e),
            },
    {
        if data.len() < BLOCKHASH_SIZE {
            return Err(StorageError::DeserializeError("insufficient data for blockhash"));
        }
        let mut blockhash = [0u8; 32];
        let mut k: usize = 0;
        while k < BLOCKHASH_SIZE
            invariant
                k <= 32,
                32 <= data@.len(),
                forall|m: int| 0 <= m < k ==> blockhash@[m] == data@[m],
            decreases 32 - k,
        {
            blockhash[k] = data[k];
            k = k + 1;
        }
        assert(blockhash@ =~= data@.subrange(0, 32));
        if data.len() < 36 {
            return Err(StorageError::DeserializeError("insufficient data for lenTweaks"));
        }
        let len_tweaks = read_u32_le(data, 32);
        if data.len() < RECORD_HEADER_SIZE {
            return Err(StorageError::DeserializeError("insufficient data for CRC"));
        }
        let crc_stored = read_u32_le(data, 36);
        let tweaks_bytes_len: u64 = len_tweaks as u64 * 33;
        if (data.len() as u64) < 40 + tweaks_bytes_len {
            return Err(StorageError::DeserializeError("insufficient data for tweaks"));
        }
        let end: usize = 40 + tweaks_bytes_len as usize;
        let payload = &data[40..end];
        let crc_computed = crc32(payload);
        if crc_computed != crc_stored {
            return Err(StorageError::CrcMismatch);
        }
        let ghost n = len_tweaks as nat;
        let mut tweaks: Vec<[u8; TWEAK_SIZE]> = Vec::new();
        let plen = payload.len();
        let mut i: usize = 0;
        while i < len_tweaks as usize
            invariant
                i <= n,
                plen == payload@.len(),
                n == len_tweaks,
                payload@.len() == 33 * n,
                tweaks@.len() == i,
                forall|m: int|
                    0 <= m < i ==> (#[trigger] tweaks@[m])@ == payload@.subrange(33 * m, 33 * m + 33),
            decreases n - i,
        {
            assert(33 * i + 33 <= 33 * n) by (nonlinear_arith)
                requires
                    i < n,
            ;
            let t = tweak_at(payload, 33 * i);
            tweaks.push(t);
            i = i + 1;
        }
        let b = BlockData { blockhash, tweaks };
        assert(b@.tweaks =~= split_tweaks(payload@, n));
        Ok(b)
    }
}

} // verus!
