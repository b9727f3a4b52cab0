//! The error taxonomy shared by the codec, the index and the flat-file store.

use vstd::prelude::*;
use vstd::string::StringExecFns;

verus! {

/// Declares `std::io::Error` so that the store's errors can carry one.
#[verifier::external_type_specification]
#[verifier::external_body]
pub struct ExIoError(std::io::Error);

#[derive(Debug)]
pub enum StorageError {
    /// The bytes end before the named field of a record.
    DeserializeError(&'static str),
    /// The checksum stored in a record does not match its tweak payload.
    CrcMismatch,
    /// A stored value does not have the shape that its mapping requires.
    InvalidData(&'static str),
    /// A filesystem operation failed.
    IoError(std::io::Error),
    /// The key-value store reported a failure.
    DbError(sled::Error),
    /// The key is absent from the mapping that was consulted.
    EntryNotFound,
    /// The block hash is known, but its block was retracted from the tip.
    OrphanedEntry,
    /// An insertion at a height other than the expected one, or a retraction
    /// of a block that is not the tip.
    InvalidHeight,
    /// The block hash is already in the index, live or retracted.
    DuplicateBlock,
    /// The stored data contradicts the layout of the store.
    CorruptDB(&'static str),
    /// A write that had to follow an earlier, already durable write failed:
    /// the store needs manual repair.
    Fatal(&'static str),
}

impl StorageError {
    /// A human-readable description of the error.
    pub fn message(&self) -> (r: String)
        ensures
            match self {
                StorageError::DeserializeError(m) => r@ == "Deserialization error: "@ + m@,
                StorageError::InvalidData(m) => r@ == "Invalid data: "@ + m@,
                StorageError::CorruptDB(m) => r@ == "Corrupt database: "@ + m@,
                StorageError::Fatal(m) => r@ == "Fatal storage error: "@ + m@,
                StorageError::CrcMismatch => r@ == "CRC mismatch for tweaks"@,
                StorageError::IoError(_) => "IO error: "@.is_prefix_of(r@),
                StorageError::DbError(_) => "Database error: "@.is_prefix_of(r@),
                StorageError::EntryNotFound => r@ == "Not found"@,
                StorageError::OrphanedEntry => r@ == "Entry is marked as orphaned"@,
                StorageError::InvalidHeight => r@ == "Invalid height"@,
                StorageError::DuplicateBlock => r@ == "Block hash already stored"@,
            },
    {
        match self {
            StorageError::DeserializeError(m) => describe("Deserialization error: ", m),
            StorageError::CrcMismatch => <String as StringExecFns>::from_str("CRC mismatch for tweaks"),
            StorageError::InvalidData(m) => describe("Invalid data: ", m),
            StorageError::IoError(e) => {
                let text = io_error_text(e);
                let r = describe("IO error: ", text.as_str());
                assert(r@.subrange(0, "IO error: "@.len() as int) =~= "IO error: "@);
                r
            },
            StorageError::DbError(e) => {
                let text = sled_error_text(e);
                let r = describe("Database error: ", text.as_str());
                assert(r@.subrange(0, "Database error: "@.len() as int) =~= "Database error: "@);
                r
            },
            StorageError::EntryNotFound => <String as StringExecFns>::from_str("Not found"),
            StorageError::OrphanedEntry => <String as StringExecFns>::from_str("Entry is marked as orphaned"),
            StorageError::InvalidHeight => <String as StringExecFns>::from_str("Invalid height"),
            StorageError::DuplicateBlock => <String as StringExecFns>::from_str("Block hash already stored"),
            StorageError::CorruptDB(m) => describe("Corrupt database: ", m),
            StorageError::Fatal(m) => describe("Fatal storage error: ", m),
        }
    }
}

/// Relies on the `Display` impl of `std::io::Error`: its description.
#[verifier::external_body]
fn io_error_text(e: &std::io::Error) -> (r: String) {
    e.to_string()
}

/// Relies on the `Display` impl of `sled::Error`: its description.
#[verifier::external_body]
fn sled_error_text(e: &sled::Error) -> (r: String) {
    e.to_string()
}

/// The concatenation of `head` and `tail`.
fn describe(head: &str, tail: &str) -> (r: String)
    ensures
        r@ == head@ + tail@,
{
    let s = <String as StringExecFns>::from_str(head);
    s.concat(tail)
}

} // verus!
