//! The statements by which tables are compacted in the background.

use vstd::prelude::*;

use crate::text::decimal;
use crate::text::push_decimal;

verus! {

/// The tables that may be compacted.
pub const GET_ALL_TARGET_TABLES: &'static str = "
SELECT t.database, d.database_id, t.name as table, t.table_id
FROM system.tables as t
JOIN system.databases as d
ON t.database = d.name
WHERE t.database != 'system'
    AND t.database != 'information_schema'
    AND t.engine = 'FUSE'
    AND t.num_rows > 0
    AND t.data_compressed_size > 0;
";

#[derive(Clone, Copy, Debug, PartialEq, Eq, Structural)]
pub struct TableStatistics {
    pub num_rows: Option<u64>,
    pub data_size: Option<u64>,
    pub data_size_compressed: Option<u64>,
    pub index_size: Option<u64>,
}

/// What the advice on a table says, in the order of its columns.
#[derive(Clone, Copy, Debug, PartialEq, Eq, Structural)]
pub struct AdviceRow {
    pub segment_advice: bool,
    pub block_advice: bool,
    pub row_count: u64,
    pub bytes_uncompressed: u64,
    pub bytes_compressed: u64,
    pub index_size: u64,
}

#[derive(Debug)]
pub struct CompactionJob {
    pub segment_limit: Option<u64>,
    pub block_limit: Option<u64>,
}

/// How many are compacted at most, where that is limited.
pub open spec fn limit_clause(limit: Option<u64>) -> Seq<char> {
    match limit {
        Some(n) => " LIMIT "@ + decimal(n as nat),
        None => Seq::empty(),
    }
}

/// What the advice on a table is asked for with, up to the name of the database.
pub open spec fn advice_question() -> Seq<char> {
    "
        select
        IF(segment_count > 10 and block_count / segment_count < 100, TRUE, FALSE) AS segment_advice,
        IF(bytes_uncompressed / block_count / 1024 / 1024 < 50, TRUE, FALSE) AS block_advice,
        row_count, bytes_uncompressed, bytes_compressed, index_size,
        block_count, segment_count,
        block_count/segment_count,
        humanize_size(bytes_uncompressed / block_count) AS per_block_uncompressed_size_string
        from fuse_snapshot('"@
}

impl CompactionJob {
    /// Asks what a table needs.
    pub fn get_compaction_advice_sql(database: String, table: String) -> (r: String)
        ensures
            r@ == advice_question() + database@ + "', '"@ + table@ + "') order by timestamp ASC LIMIT 1;
        "@,
    {
        let mut r = String::new();
        r.append(
            "
        select
        IF(segment_count > 10 and block_count / segment_count < 100, TRUE, FALSE) AS segment_advice,
        IF(bytes_uncompressed / block_count / 1024 / 1024 < 50, TRUE, FALSE) AS block_advice,
        row_count, bytes_uncompressed, bytes_compressed, index_size,
        block_count, segment_count,
        block_count/segment_count,
        humanize_size(bytes_uncompressed / block_count) AS per_block_uncompressed_size_string
        from fuse_snapshot('",
        );
        assert(r@ =~= advice_question());
        r.append(database.as_str());
        r.append("', '");
        r.append(table.as_str());
        r.append("') order by timestamp ASC LIMIT 1;
        ");
        r
    }

    /// What a table needs, from the advice on it.
    pub fn do_check_table(row: &AdviceRow) -> (r: (bool, bool, TableStatistics))
        ensures
            r.0 == row.segment_advice,
            r.1 == row.block_advice,
            r.2 == (TableStatistics {
                num_rows: Some(row.row_count),
                data_size: Some(row.bytes_uncompressed),
                data_size_compressed: Some(row.bytes_compressed),
                index_size: Some(row.index_size),
            }),
    {
        let statistics = TableStatistics {
            num_rows: Some(row.row_count),
            data_size: Some(row.bytes_uncompressed),
            data_size_compressed: Some(row.bytes_compressed),
            index_size: Some(row.index_size),
        };
        (row.segment_advice, row.block_advice, statistics)
    }

    /// Compacts the segments of a table, within the limit of the job.
    pub fn do_segment_compaction(&self, database: String, table: String) -> (r: String)
        ensures
            r@ == "OPTIMIZE TABLE "@ + database@ + "."@ + table@ + " COMPACT SEGMENT"@ + limit_clause(self.segment_limit)
                + ";"@,
    {
        Self::get_segment_compaction_sql(database, table, self.segment_limit)
    }

    /// Compacts the blocks of a table, within the limit of the job.
    pub fn do_block_compaction(&self, database: String, table: String) -> (r: String)
        ensures
            r@ == "OPTIMIZE TABLE "@ + database@ + "."@ + table@ + " COMPACT"@ + limit_clause(self.block_limit) + ";"@,
    {
        Self::get_block_compaction_sql(database, table, self.block_limit)
    }

    /// Compacts the segments of a table.
    pub fn get_segment_compaction_sql(database: String, table: String, limit: Option<u64>) -> (r: String)
        ensures
            r@ == "OPTIMIZE TABLE "@ + database@ + "."@ + table@ + " COMPACT SEGMENT"@ + limit_clause(limit) + ";"@,
    {
        compaction_sql(database, table, " COMPACT SEGMENT", limit)
    }

    /// Compacts the blocks of a table.
    pub fn get_block_compaction_sql(database: String, table: String, limit: Option<u64>) -> (r: String)
        ensures
            r@ == "OPTIMIZE TABLE "@ + database@ + "."@ + table@ + " COMPACT"@ + limit_clause(limit) + ";"@,
    {
        compaction_sql(database, table, " COMPACT", limit)
    }
}

fn compaction_sql(database: String, table: String, what: &str, limit: Option<u64>) -> (r: String)
    ensures
        r@ == "OPTIMIZE TABLE "@ + database@ + "."@ + table@ + what@ + limit_clause(limit) + ";"@,
{
    let mut r = String::new();
    r.append("OPTIMIZE TABLE ");
    r.append(database.as_str());
    r.append(".");
    r.append(table.as_str());
    r.append(what);
    let ghost before = r@;
    if let Some(n) = limit {
        r.append(" LIMIT ");
        push_decimal(&mut r, n);
    }
    assert(r@ =~= before + limit_clause(limit));
    r.append(";");
    assert(r@ =~= "OPTIMIZE TABLE "@ + database@ + "."@ + table@ + what@ + limit_clause(limit) + ";"@);
    r
}

/// A limit is written down exactly where there is one.
pub proof fn limits_are_written_down(limit: Option<u64>)
    ensures
        limit is None ==> limit_clause(limit).len() == 0,
        limit matches Some(n) ==> limit_clause(limit) == " LIMIT "@ + decimal(n as nat),
{
}

}
