//! Truncating a table: a snapshot without segments takes the place of the current one.

use vstd::prelude::*;

use crate::error::ErrorCode;
use crate::schema::TableSchema;
use crate::uuids::is_random;
use crate::uuids::new_v4;
use crate::uuids::simple;
use crate::uuids::simple_text;

verus! {

/// What the rows of a snapshot come to.
#[derive(Clone, Copy, Debug, PartialEq, Eq, Structural)]
pub struct SnapshotStats {
    pub row_count: u64,
    pub block_count: u64,
    pub uncompressed_byte_size: u64,
    pub compressed_byte_size: u64,
}

#[derive(Debug)]
pub struct TableSnapshot {
    pub snapshot_id: u128,
    pub prev_snapshot_id: Option<u128>,
    pub schema: TableSchema,
    pub summary: SnapshotStats,
    /// The locations of the segments.
    pub segments: Vec<String>,
}

pub open spec fn no_rows() -> SnapshotStats {
    SnapshotStats { row_count: 0, block_count: 0, uncompressed_byte_size: 0, compressed_byte_size: 0 }
}

/// A snapshot that follows another and holds nothing.
pub open spec fn is_cleared(s: TableSnapshot, id: u128, prev: Option<u128>, schema: TableSchema) -> bool {
    &&& s.snapshot_id == id
    &&& s.prev_snapshot_id == prev
    &&& s.schema == schema
    &&& s.summary == no_rows()
    &&& s.segments@.len() == 0
}

/// The snapshot with the given id that follows another and holds nothing.
pub fn cleared_snapshot(id: u128, prev_snapshot: Option<TableSnapshot>, schema: TableSchema) -> (r: TableSnapshot)
    ensures
        is_cleared(
            r,
            id,
            match prev_snapshot {
                Some(s) => Some(s.snapshot_id),
                None => None,
            },
            schema,
        ),
{
    let prev_snapshot_id = match prev_snapshot {
        Some(s) => Some(s.snapshot_id),
        None => None,
    };
    // "clear" segments and stats
    TableSnapshot {
        snapshot_id: id,
        prev_snapshot_id,
        schema,
        summary: SnapshotStats {
            row_count: 0,
            block_count: 0,
            uncompressed_byte_size: 0,
            compressed_byte_size: 0,
        },
        segments: Vec::new(),
    }
}

/// A new snapshot that holds nothing, and the name that its location is made of.
pub fn new_snapshot(prev_snapshot: Option<TableSnapshot>, schema: TableSchema) -> (r: (TableSnapshot, String))
    ensures
        is_random(r.0.snapshot_id),
        r.1@ == simple(r.0.snapshot_id),
        is_cleared(
            r.0,
            r.0.snapshot_id,
            match prev_snapshot {
                Some(s) => Some(s.snapshot_id),
                None => None,
            },
            schema,
        ),
{
    let id: u128 = new_v4();
    (cleared_snapshot(id, prev_snapshot, schema), simple_text(id))
}

/// Why the catalog did not take a snapshot.
#[derive(Debug)]
pub enum UpsertError {
    /// The table has another version by now.
    TableVersionMissMatch(ErrorCode),
    Other(ErrorCode),
}

/// What is done after the catalog was asked to take a snapshot.
#[derive(Debug)]
pub enum TruncateAction {
    Done,
    /// Ask for the version that the table has by now.
    FetchVersion(ErrorCode),
    /// Give up.
    Permanent(ErrorCode),
    /// Try again.
    Transient(ErrorCode),
}

/// A truncation that is tried until the table has the version that it works on.
#[derive(Debug)]
pub struct Truncation {
    pub version: u64,
}

impl Truncation {
    pub fn do_truncate(version: u64) -> (r: Truncation)
        ensures
            r.version == version,
    {
        Truncation { version }
    }

    /// What is done after the catalog was asked to take a snapshot.
    pub fn commit_truncate(&self, upserted: Result<(), UpsertError>) -> (r: TruncateAction)
        ensures
            match upserted {
                Ok(()) => r == TruncateAction::Done,
                Err(UpsertError::TableVersionMissMatch(e)) => r == TruncateAction::FetchVersion(e),
                Err(UpsertError::Other(e)) => r == TruncateAction::Permanent(e),
            },
    {
        match upserted {
            Ok(()) => TruncateAction::Done,
            Err(UpsertError::TableVersionMissMatch(e)) => TruncateAction::FetchVersion(e),
            Err(UpsertError::Other(e)) => TruncateAction::Permanent(e),
        }
    }

    /// The version that the table has by now was found, or the table was not. Either way the
    /// truncation is tried again.
    pub fn version_fetched(&mut self, cause: ErrorCode, version: Result<u64, ErrorCode>) -> (r: TruncateAction)
        ensures
            match version {
                Ok(v) => final(self).version == v && r == TruncateAction::Transient(cause),
                Err(e) => final(self).version == old(self).version && r == TruncateAction::Transient(e),
            },
    {
        match version {
            Ok(v) => {
                self.version = v;
                TruncateAction::Transient(cause)
            },
            Err(e) => TruncateAction::Transient(e),
        }
    }
}

/// A table that was truncated has nothing left: no segment, no block, no row and no byte. It keeps
/// its schema and remembers the snapshot before.
pub proof fn nothing_is_left_of_a_truncated_table(s: TableSnapshot, id: u128, prev: Option<u128>, schema: TableSchema)
    requires
        is_cleared(s, id, prev, schema),
    ensures
        s.snapshot_id == id,
        s.prev_snapshot_id == prev,
        s.schema == schema,
        s.segments@.len() == 0,
        s.summary.row_count == 0,
        s.summary.block_count == 0,
        s.summary.uncompressed_byte_size == 0,
        s.summary.compressed_byte_size == 0,
{
}

}
