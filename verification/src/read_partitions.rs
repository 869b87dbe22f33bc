//! Which blocks of a table are read, and which columns of them.

use std::collections::HashMap;
use std::collections::HashSet;

use vstd::prelude::*;

use crate::sort_merge::lemma_map_keeps_multiset;

verus! {

/// Where a column of a block is kept.
#[derive(Clone, Copy, Debug, PartialEq, Eq, Structural)]
pub struct ColumnMeta {
    pub offset: u64,
    pub len: u64,
    pub num_values: u64,
}

/// The least and the greatest value of a column of a block, by their ranks among the values of
/// the column.
#[derive(Clone, Copy, Debug, PartialEq, Eq, Structural)]
pub struct ColumnStatistics {
    pub min: i64,
    pub max: i64,
}

#[derive(Clone, Copy, Debug, PartialEq, Eq, Structural)]
pub struct TopK {
    pub column_id: u32,
    pub asc: bool,
}

/// A block of a table. A column id stands at most once among its metas and its statistics.
#[derive(Debug)]
pub struct BlockMeta {
    pub row_count: u64,
    pub block_size: u64,
    pub col_metas: Vec<(u32, ColumnMeta)>,
    pub col_stats: Vec<(u32, ColumnStatistics)>,
    pub location: String,
    pub format_version: u64,
    pub delete_mask_location: Option<u64>,
    pub delete_mark_size: u64,
    pub compression: u8,
}

/// A block to be read, and the pages of it where not all of them are.
#[derive(Debug)]
pub struct PrunedBlock {
    pub range: Option<(usize, usize)>,
    pub meta: BlockMeta,
}

/// What is read of a block.
#[derive(Debug)]
pub struct FusePartInfo {
    pub location: String,
    pub format_version: u64,
    pub nums_rows: u64,
    pub columns_meta: HashMap<u32, ColumnMeta>,
    pub compression: u8,
    pub sort_min_max: Option<(i64, i64)>,
    pub range: Option<(usize, usize)>,
    pub delete_mark: Option<(u64, u64)>,
}

pub struct PartView {
    pub location: Seq<char>,
    pub format_version: u64,
    pub nums_rows: u64,
    pub columns_meta: Map<u32, ColumnMeta>,
    pub compression: u8,
    pub sort_min_max: Option<(i64, i64)>,
    pub range: Option<(usize, usize)>,
    pub delete_mark: Option<(u64, u64)>,
}

impl View for FusePartInfo {
    type V = PartView;

    open spec fn view(&self) -> PartView {
        PartView {
            location: self.location@,
            format_version: self.format_version,
            nums_rows: self.nums_rows,
            columns_meta: self.columns_meta@,
            compression: self.compression,
            sort_min_max: self.sort_min_max,
            range: self.range,
            delete_mark: self.delete_mark,
        }
    }
}

/// How parts are spread over executors.
#[derive(Clone, Copy, Debug, PartialEq, Eq, Structural)]
pub enum PartitionsShuffleKind {
    InOrder,
    Mod,
}

#[derive(Debug)]
pub struct Partitions {
    pub kind: PartitionsShuffleKind,
    pub partitions: Vec<FusePartInfo>,
}

#[derive(Clone, Copy, Debug, PartialEq, Eq, Structural)]
pub struct PruningStatistics {
    pub segments_before: usize,
    pub segments_after: usize,
    pub blocks_before: usize,
    pub blocks_after: usize,
}

#[derive(Clone, Copy, Debug, PartialEq, Eq, Structural)]
pub struct PartStatistics {
    pub read_rows: u64,
    pub read_bytes: u64,
    pub partitions_scanned: usize,
    pub partitions_total: usize,
    pub is_exact: bool,
    pub pruning_stats: PruningStatistics,
}

pub open spec fn no_pruning() -> PruningStatistics {
    PruningStatistics { segments_before: 0, segments_after: 0, blocks_before: 0, blocks_after: 0 }
}

pub open spec fn empty_statistics(is_exact: bool) -> PartStatistics {
    PartStatistics {
        read_rows: 0,
        read_bytes: 0,
        partitions_scanned: 0,
        partitions_total: 0,
        is_exact,
        pruning_stats: no_pruning(),
    }
}

impl PartStatistics {
    /// Statistics of nothing, which are exact.
    pub fn default_exact() -> (r: PartStatistics)
        ensures
            r == empty_statistics(true),
    {
        PartStatistics {
            read_rows: 0,
            read_bytes: 0,
            partitions_scanned: 0,
            partitions_total: 0,
            is_exact: true,
            pruning_stats: PruningStatistics {
                segments_before: 0,
                segments_after: 0,
                blocks_before: 0,
                blocks_after: 0,
            },
        }
    }
}

/// What a query asks of a table.
#[derive(Debug)]
pub struct PushDownInfo {
    /// The leaf columns that are read; all columns where `None`.
    pub projection: Option<Vec<u32>>,
    pub has_filters: bool,
    pub has_order_by: bool,
    pub limit: Option<usize>,
}

/// The metas of the columns of a block by their ids.
pub open spec fn metas_by_id(v: Seq<(u32, ColumnMeta)>) -> Map<u32, ColumnMeta>
    decreases v.len(),
{
    if v.len() == 0 {
        Map::empty()
    } else {
        metas_by_id(v.drop_last()).insert(v.last().0, v.last().1)
    }
}

/// The statistics of the columns of a block by their ids.
pub open spec fn stats_by_id(v: Seq<(u32, ColumnStatistics)>) -> Map<u32, ColumnStatistics>
    decreases v.len(),
{
    if v.len() == 0 {
        Map::empty()
    } else {
        stats_by_id(v.drop_last()).insert(v.last().0, v.last().1)
    }
}

impl BlockMeta {
    fn column_meta(&self, id: u32) -> (r: Option<ColumnMeta>)
        ensures
            r == (if metas_by_id(self.col_metas@).contains_key(id) {
                Some(metas_by_id(self.col_metas@)[id])
            } else {
                None
            }),
    {
        let ghost all = self.col_metas@;
        let mut i: usize = self.col_metas.len();
        assert(all.take(i as int) =~= all);
        while i > 0
            invariant
                i <= self.col_metas@.len(),
                all == self.col_metas@,
                metas_by_id(all).contains_key(id) == metas_by_id(all.take(i as int)).contains_key(id),
                metas_by_id(all).contains_key(id) ==> metas_by_id(all)[id] == metas_by_id(all.take(i as int))[id],
            decreases i,
        {
            assert(all.take(i as int).last() == all[i - 1]);
            assert(all.take(i as int).drop_last() =~= all.take(i - 1));
            if self.col_metas[i - 1].0 == id {
                return Some(self.col_metas[i - 1].1);
            }
            i -= 1;
        }
        None
    }

    fn column_stat(&self, id: u32) -> (r: Option<ColumnStatistics>)
        ensures
            r == (if stats_by_id(self.col_stats@).contains_key(id) {
                Some(stats_by_id(self.col_stats@)[id])
            } else {
                None
            }),
    {
        let ghost all = self.col_stats@;
        let mut i: usize = self.col_stats.len();
        assert(all.take(i as int) =~= all);
        while i > 0
            invariant
                i <= self.col_stats@.len(),
                all == self.col_stats@,
                stats_by_id(all).contains_key(id) == stats_by_id(all.take(i as int)).contains_key(id),
                stats_by_id(all).contains_key(id) ==> stats_by_id(all)[id] == stats_by_id(all.take(i as int))[id],
            decreases i,
        {
            assert(all.take(i as int).last() == all[i - 1]);
            assert(all.take(i as int).drop_last() =~= all.take(i - 1));
            if self.col_stats[i - 1].0 == id {
                return Some(self.col_stats[i - 1].1);
            }
            i -= 1;
        }
        None
    }
}

/// The least and the greatest value of the column that the top rows are taken by.
pub open spec fn sort_range(meta: BlockMeta, top_k: Option<TopK>) -> Option<(i64, i64)> {
    match top_k {
        Some(k) => {
            let stat = stats_by_id(meta.col_stats@)[k.column_id];
            Some((stat.min, stat.max))
        },
        None => None,
    }
}

/// A block has statistics of the column that the top rows are taken by.
pub open spec fn has_stat(meta: BlockMeta, top_k: Option<TopK>) -> bool {
    top_k matches Some(k) ==> stats_by_id(meta.col_stats@).contains_key(k.column_id)
}

pub open spec fn delete_mark(meta: BlockMeta) -> Option<(u64, u64)> {
    match meta.delete_mask_location {
        Some(loc) => Some((loc, meta.delete_mark_size)),
        None => None,
    }
}

/// What is read of a block where the given columns of it are read.
pub open spec fn part_of(
    b: PrunedBlock,
    columns_meta: Map<u32, ColumnMeta>,
    top_k: Option<TopK>,
) -> PartView {
    PartView {
        location: b.meta.location@,
        format_version: b.meta.format_version,
        nums_rows: b.meta.row_count,
        columns_meta,
        compression: b.meta.compression,
        sort_min_max: sort_range(b.meta, top_k),
        range: b.range,
        delete_mark: delete_mark(b.meta),
    }
}

/// All columns of a block but for those that have been deleted.
pub open spec fn live_columns(meta: BlockMeta, deleted: Option<Set<u32>>) -> Map<u32, ColumnMeta> {
    match deleted {
        Some(d) => metas_by_id(meta.col_metas@).remove_keys(d),
        None => metas_by_id(meta.col_metas@),
    }
}

/// The columns of a projection as far as a block has them.
pub open spec fn projected_columns(meta: BlockMeta, leaf_ids: Seq<u32>) -> Map<u32, ColumnMeta> {
    metas_by_id(meta.col_metas@).restrict(leaf_ids.to_set())
}

/// Which columns are read.
pub enum Selection {
    AllColumns(Option<Set<u32>>),
    Projection(Seq<u32>),
}

pub open spec fn selected_columns(meta: BlockMeta, selection: Selection) -> Map<u32, ColumnMeta> {
    match selection {
        Selection::AllColumns(deleted) => live_columns(meta, deleted),
        Selection::Projection(ids) => projected_columns(meta, ids),
    }
}

/// The bytes that are read of a block.
pub open spec fn selected_bytes(meta: BlockMeta, selection: Selection) -> int {
    match selection {
        Selection::AllColumns(_) => meta.block_size as int,
        Selection::Projection(ids) => projected_bytes(meta, ids),
    }
}

/// The bytes of the columns of a projection, as far as a block has them.
pub open spec fn projected_bytes(meta: BlockMeta, ids: Seq<u32>) -> int
    decreases ids.len(),
{
    if ids.len() == 0 {
        0
    } else {
        let m = metas_by_id(meta.col_metas@);
        projected_bytes(meta, ids.drop_last()) + if m.contains_key(ids.last()) {
            m[ids.last()].len as int
        } else {
            0
        }
    }
}

/// How many of the blocks from `i` on are read until `remaining` rows are there.
pub open spec fn blocks_taken(blocks: Seq<PrunedBlock>, i: nat, remaining: int) -> nat
    decreases blocks.len() - i,
{
    if i >= blocks.len() {
        0
    } else if remaining > blocks[i as int].meta.row_count {
        1 + blocks_taken(blocks, i + 1, remaining - blocks[i as int].meta.row_count)
    } else {
        1
    }
}

/// Whether the rows of the blocks that are read are all the rows that are asked for: the last
/// block is read to its end.
pub open spec fn taken_exactly(blocks: Seq<PrunedBlock>, i: nat, remaining: int) -> bool
    decreases blocks.len() - i,
{
    if i >= blocks.len() {
        true
    } else if remaining > blocks[i as int].meta.row_count {
        taken_exactly(blocks, i + 1, remaining - blocks[i as int].meta.row_count)
    } else {
        remaining == blocks[i as int].meta.row_count
    }
}

pub open spec fn total_rows(blocks: Seq<PrunedBlock>, n: int) -> int
    decreases n,
{
    if n <= 0 {
        0
    } else {
        total_rows(blocks, n - 1) + blocks[n - 1].meta.row_count
    }
}

pub open spec fn total_bytes(blocks: Seq<PrunedBlock>, selection: Selection, n: int) -> int
    decreases n,
{
    if n <= 0 {
        0
    } else {
        total_bytes(blocks, selection, n - 1) + selected_bytes(blocks[n - 1].meta, selection)
    }
}

/// The blocks that are read for at most `limit` rows.
pub open spec fn limited(blocks: Seq<PrunedBlock>, limit: int) -> int {
    if limit == 0 {
        0
    } else {
        blocks_taken(blocks, 0, limit) as int
    }
}

pub open spec fn part_views(v: Seq<FusePartInfo>) -> Seq<PartView> {
    v.map_values(|p: FusePartInfo| p@)
}

/// The parts of the blocks that are read.
pub open spec fn parts_of(
    blocks: Seq<PrunedBlock>,
    selection: Selection,
    top_k: Option<TopK>,
    n: nat,
) -> Seq<PartView> {
    Seq::new(n, |i: int| part_of(blocks[i], selected_columns(blocks[i].meta, selection), top_k))
}

/// Rows and bytes can be counted.
pub open spec fn countable(blocks: Seq<PrunedBlock>, selection: Selection) -> bool {
    total_rows(blocks, blocks.len() as int) <= u64::MAX && total_bytes(blocks, selection, blocks.len() as int)
        <= u64::MAX
}

/// Statistics of the blocks that are read.
pub open spec fn statistics_of(blocks: Seq<PrunedBlock>, selection: Selection, limit: int) -> PartStatistics {
    let n = limited(blocks, limit);
    PartStatistics {
        read_rows: total_rows(blocks, n) as u64,
        read_bytes: total_bytes(blocks, selection, n) as u64,
        is_exact: limit == 0 || taken_exactly(blocks, 0, limit),
        ..empty_statistics(true)
    }
}

proof fn lemma_totals_grow(blocks: Seq<PrunedBlock>, selection: Selection, a: int, b: int)
    requires
        0 <= a <= b <= blocks.len(),
    ensures
        total_rows(blocks, a) <= total_rows(blocks, b),
        total_bytes(blocks, selection, a) <= total_bytes(blocks, selection, b),
        total_rows(blocks, a) >= 0,
        total_bytes(blocks, selection, a) >= 0,
    decreases b - a, b,
{
    if a < b {
        lemma_totals_grow(blocks, selection, a, b - 1);
        lemma_selected_bytes(blocks[b - 1].meta, selection);
    } else if a > 0 {
        lemma_totals_grow(blocks, selection, a - 1, a - 1);
        lemma_selected_bytes(blocks[a - 1].meta, selection);
    }
}

proof fn lemma_selected_bytes(meta: BlockMeta, selection: Selection)
    ensures
        selected_bytes(meta, selection) >= 0,
{
    if let Selection::Projection(ids) = selection {
        lemma_projected_bytes(meta, ids, ids.len() as int);
        assert(ids.take(ids.len() as int) =~= ids);
    }
}

proof fn lemma_projected_bytes(meta: BlockMeta, ids: Seq<u32>, n: int)
    requires
        0 <= n <= ids.len(),
    ensures
        0 <= projected_bytes(meta, ids.take(n)) <= projected_bytes(meta, ids),
    decreases n, ids.len() - n,
{
    lemma_projected_nonnegative(meta, ids.take(n));
    lemma_projected_prefix(meta, ids, n);
}

proof fn lemma_projected_nonnegative(meta: BlockMeta, ids: Seq<u32>)
    ensures
        projected_bytes(meta, ids) >= 0,
    decreases ids.len(),
{
    if ids.len() > 0 {
        lemma_projected_nonnegative(meta, ids.drop_last());
    }
}

proof fn lemma_projected_prefix(meta: BlockMeta, ids: Seq<u32>, n: int)
    requires
        0 <= n <= ids.len(),
    ensures
        projected_bytes(meta, ids.take(n)) <= projected_bytes(meta, ids),
    decreases ids.len() - n,
{
    if n < ids.len() {
        lemma_projected_prefix(meta, ids, n + 1);
        assert(ids.take(n + 1).drop_last() =~= ids.take(n));
    } else {
        assert(ids.take(n) =~= ids);
    }
}

fn make_part(b: &PrunedBlock, columns_meta: HashMap<u32, ColumnMeta>, top_k: &Option<TopK>) -> (r: FusePartInfo)
    requires
        has_stat(b.meta, *top_k),
    ensures
        r@ == part_of(*b, columns_meta@, *top_k),
{
    let sort_min_max = match top_k {
        Some(k) => match b.meta.column_stat(k.column_id) {
            Some(stat) => Some((stat.min, stat.max)),
            None => None,
        },
        None => None,
    };
    let delete_mark = match b.meta.delete_mask_location {
        Some(loc) => Some((loc, b.meta.delete_mark_size)),
        None => None,
    };
    FusePartInfo {
        location: b.meta.location.clone(),
        format_version: b.meta.format_version,
        nums_rows: b.meta.row_count,
        columns_meta,
        compression: b.meta.compression,
        sort_min_max,
        range: b.range,
        delete_mark,
    }
}

/// What is read of a block where all of its columns are read, but for those that have been
/// deleted from the table.
pub fn all_columns_part(deleted: Option<&HashSet<u32>>, b: &PrunedBlock, top_k: &Option<TopK>) -> (r: FusePartInfo)
    requires
        has_stat(b.meta, *top_k),
    ensures
        r@ == part_of(
            *b,
            live_columns(
                b.meta,
                match deleted {
                    Some(d) => Some(d@),
                    None => None,
                },
            ),
            *top_k,
        ),
{
    broadcast use vstd::std_specs::hash::group_hash_axioms;

    let ghost dead = match deleted {
        Some(d) => d@,
        None => Set::<u32>::empty(),
    };
    let ghost all = b.meta.col_metas@;
    let mut columns_meta: HashMap<u32, ColumnMeta> = HashMap::new();
    let mut i: usize = 0;
    assert(columns_meta@ =~= metas_by_id(all.take(0)).remove_keys(dead));
    while i < b.meta.col_metas.len()
        invariant
            i <= b.meta.col_metas@.len(),
            all == b.meta.col_metas@,
            dead == (match deleted {
                Some(d) => d@,
                None => Set::<u32>::empty(),
            }),
            columns_meta@ == metas_by_id(all.take(i as int)).remove_keys(dead),
        decreases b.meta.col_metas.len() - i,
    {
        let (id, meta) = b.meta.col_metas[i];
        proof {
            assert(all.take(i + 1).drop_last() =~= all.take(i as int));
            assert(all.take(i + 1).last() == (id, meta));
        }
        let is_deleted = match deleted {
            Some(d) => d.contains(&id),
            None => false,
        };
        // ignore all deleted field
        if !is_deleted {
            columns_meta.insert(id, meta);
        }
        assert(columns_meta@ =~= metas_by_id(all.take(i + 1)).remove_keys(dead));
        i += 1;
    }
    proof {
        assert(all.take(i as int) =~= all);
        if deleted is None {
            assert(metas_by_id(all).remove_keys(dead) =~= metas_by_id(all));
        }
    }
    make_part(b, columns_meta, top_k)
}

/// What is read of a block where the columns of a projection are read.
pub fn projection_part(b: &PrunedBlock, leaf_ids: &Vec<u32>, top_k: &Option<TopK>) -> (r: FusePartInfo)
    requires
        has_stat(b.meta, *top_k),
    ensures
        r@ == part_of(*b, projected_columns(b.meta, leaf_ids@), *top_k),
{
    broadcast use vstd::std_specs::hash::group_hash_axioms;

    let ghost metas = metas_by_id(b.meta.col_metas@);
    let mut columns_meta: HashMap<u32, ColumnMeta> = HashMap::new();
    let mut i: usize = 0;
    assert(columns_meta@ =~= metas.restrict(leaf_ids@.take(0).to_set()));
    while i < leaf_ids.len()
        invariant
            i <= leaf_ids@.len(),
            metas == metas_by_id(b.meta.col_metas@),
            columns_meta@ == metas.restrict(leaf_ids@.take(i as int).to_set()),
        decreases leaf_ids.len() - i,
    {
        let id: u32 = leaf_ids[i];
        let ghost seen = leaf_ids@.take(i as int);
        let ghost next = leaf_ids@.take(i + 1);
        proof {
            assert(next =~= seen.push(id));
            assert forall|x: u32| #[trigger] next.to_set().contains(x) <==> seen.to_set().contains(x) || x == id by {
                if next.contains(x) {
                    let j = choose|j: int| 0 <= j < next.len() && next[j] == x;
                    if j < seen.len() {
                        assert(seen[j] == x);
                    }
                }
                if seen.contains(x) {
                    let j = choose|j: int| 0 <= j < seen.len() && seen[j] == x;
                    assert(next[j] == x);
                }
                if x == id {
                    assert(next[i as int] == x);
                }
            }
        }
        // ignore column this block dose not exist
        if let Some(meta) = b.meta.column_meta(id) {
            columns_meta.insert(id, meta);
        }
        assert(columns_meta@ =~= metas.restrict(next.to_set()));
        i += 1;
    }
    assert(leaf_ids@.take(i as int) =~= leaf_ids@);
    make_part(b, columns_meta, top_k)
}

/// The parts of the blocks that are read for at most `limit` rows, with all columns.
pub fn all_columns_partitions(
    deleted: Option<&HashSet<u32>>,
    block_metas: &Vec<PrunedBlock>,
    top_k: &Option<TopK>,
    limit: u64,
) -> (r: (PartStatistics, Partitions))
    requires
        countable(block_metas@, all_selected(deleted)),
        forall|i: int| 0 <= i < block_metas@.len() ==> has_stat((#[trigger] block_metas@[i]).meta, *top_k),
    ensures
        r.0 == statistics_of(block_metas@, all_selected(deleted), limit as int),
        r.1.kind == PartitionsShuffleKind::Mod,
        part_views(r.1.partitions@) == parts_of(
            block_metas@,
            all_selected(deleted),
            *top_k,
            limited(block_metas@, limit as int) as nat,
        ),
{
    let ghost blocks = block_metas@;
    let ghost selection = all_selected(deleted);
    let mut partitions: Vec<FusePartInfo> = Vec::new();
    if limit == 0 {
        assert(part_views(partitions@) =~= parts_of(blocks, selection, *top_k, 0));
        return (PartStatistics::default_exact(), Partitions { kind: PartitionsShuffleKind::Mod, partitions });
    }
    let mut is_exact = true;
    let mut read_rows: u64 = 0;
    let mut read_bytes: u64 = 0;
    let mut remaining: u64 = limit;
    let mut i: usize = 0;
    while i < block_metas.len()
        invariant_except_break
            i <= blocks.len(),
            is_exact,
            limit > 0,
            blocks_taken(blocks, 0, limit as int) == i + blocks_taken(blocks, i as nat, remaining as int),
            taken_exactly(blocks, 0, limit as int) == taken_exactly(blocks, i as nat, remaining as int),
            read_rows == total_rows(blocks, i as int),
            read_bytes == total_bytes(blocks, selection, i as int),
            partitions@.len() == i,
        invariant
            blocks == block_metas@,
            selection == all_selected(deleted),
            countable(blocks, selection),
            forall|j: int| 0 <= j < block_metas@.len() ==> has_stat((#[trigger] block_metas@[j]).meta, *top_k),
            limit > 0,
            forall|j: int|
                0 <= j < partitions@.len() ==> (#[trigger] partitions@[j])@ == part_of(
                    blocks[j],
                    selected_columns(blocks[j].meta, selection),
                    *top_k,
                ),
        ensures
            partitions@.len() == limited(blocks, limit as int),
            is_exact == taken_exactly(blocks, 0, limit as int),
            read_rows == total_rows(blocks, limited(blocks, limit as int)),
            read_bytes == total_bytes(blocks, selection, limited(blocks, limit as int)),
        decreases block_metas.len() - i,
    {
        let part = all_columns_part(deleted, &block_metas[i], top_k);
        partitions.push(part);
        let rows: u64 = block_metas[i].meta.row_count;
        proof {
            lemma_totals_grow(blocks, selection, i + 1, blocks.len() as int);
            lemma_totals_grow(blocks, selection, i as int, i as int);
            lemma_selected_bytes(blocks[i as int].meta, selection);
        }
        read_rows = read_rows + rows;
        read_bytes = read_bytes + block_metas[i].meta.block_size;
        i += 1;
        if remaining > rows {
            remaining = remaining - rows;
        } else {
            // the last block we shall take
            if remaining != rows {
                is_exact = false;
            }
            proof {
                assert(limited(blocks, limit as int) == i);
                assert(part_views(partitions@) =~= parts_of(blocks, selection, *top_k, i as nat));
            }
            break;
        }
    }
    assert(part_views(partitions@) =~= parts_of(
        blocks,
        selection,
        *top_k,
        limited(blocks, limit as int) as nat,
    ));
    let mut statistics = PartStatistics::default_exact();
    statistics.read_rows = read_rows;
    statistics.read_bytes = read_bytes;
    statistics.is_exact = is_exact;
    (statistics, Partitions { kind: PartitionsShuffleKind::Mod, partitions })
}

/// The parts of the blocks that are read for at most `limit` rows, with the columns of a
/// projection.
pub fn projection_partitions(
    leaf_ids: &Vec<u32>,
    block_metas: &Vec<PrunedBlock>,
    top_k: &Option<TopK>,
    limit: u64,
) -> (r: (PartStatistics, Partitions))
    requires
        countable(block_metas@, Selection::Projection(leaf_ids@)),
        forall|i: int| 0 <= i < block_metas@.len() ==> has_stat((#[trigger] block_metas@[i]).meta, *top_k),
    ensures
        r.0 == statistics_of(block_metas@, Selection::Projection(leaf_ids@), limit as int),
        r.1.kind == PartitionsShuffleKind::InOrder,
        part_views(r.1.partitions@) == parts_of(
            block_metas@,
            Selection::Projection(leaf_ids@),
            *top_k,
            limited(block_metas@, limit as int) as nat,
        ),
{
    let ghost blocks = block_metas@;
    let ghost selection = Selection::Projection(leaf_ids@);
    let mut partitions: Vec<FusePartInfo> = Vec::new();
    if limit == 0 {
        assert(part_views(partitions@) =~= parts_of(blocks, selection, *top_k, 0));
        return (PartStatistics::default_exact(), Partitions { kind: PartitionsShuffleKind::InOrder, partitions });
    }
    let mut is_exact = true;
    let mut read_rows: u64 = 0;
    let mut read_bytes: u64 = 0;
    let mut remaining: u64 = limit;
    let mut i: usize = 0;
    while i < block_metas.len()
        invariant_except_break
            i <= blocks.len(),
            is_exact,
            limit > 0,
            blocks_taken(blocks, 0, limit as int) == i + blocks_taken(blocks, i as nat, remaining as int),
            taken_exactly(blocks, 0, limit as int) == taken_exactly(blocks, i as nat, remaining as int),
            read_rows == total_rows(blocks, i as int),
            read_bytes == total_bytes(blocks, selection, i as int),
            partitions@.len() == i,
        invariant
            blocks == block_metas@,
            selection == Selection::Projection(leaf_ids@),
            countable(blocks, selection),
            forall|j: int| 0 <= j < block_metas@.len() ==> has_stat((#[trigger] block_metas@[j]).meta, *top_k),
            limit > 0,
            forall|j: int|
                0 <= j < partitions@.len() ==> (#[trigger] partitions@[j])@ == part_of(
                    blocks[j],
                    selected_columns(blocks[j].meta, selection),
                    *top_k,
                ),
        ensures
            partitions@.len() == limited(blocks, limit as int),
            is_exact == taken_exactly(blocks, 0, limit as int),
            read_rows == total_rows(blocks, limited(blocks, limit as int)),
            read_bytes == total_bytes(blocks, selection, limited(blocks, limit as int)),
        decreases block_metas.len() - i,
    {
        let part = projection_part(&block_metas[i], leaf_ids, top_k);
        partitions.push(part);
        let rows: u64 = block_metas[i].meta.row_count;
        proof {
            lemma_totals_grow(blocks, selection, i + 1, blocks.len() as int);
            lemma_totals_grow(blocks, selection, i as int, i as int);
            lemma_selected_bytes(blocks[i as int].meta, selection);
        }
        read_rows = read_rows + rows;
        let mut k: usize = 0;
        let ghost meta = block_metas@[i as int].meta;
        let before: u64 = read_bytes;
        assert(leaf_ids@.take(0) =~= Seq::<u32>::empty());
        while k < leaf_ids.len()
            invariant
                k <= leaf_ids@.len(),
                i < block_metas@.len(),
                meta == block_metas@[i as int].meta,
                read_bytes == before + projected_bytes(meta, leaf_ids@.take(k as int)),
                before + projected_bytes(meta, leaf_ids@) <= u64::MAX,
            decreases leaf_ids.len() - k,
        {
            proof {
                lemma_projected_prefix(meta, leaf_ids@, k + 1);
                assert(leaf_ids@.take(k + 1).drop_last() =~= leaf_ids@.take(k as int));
                assert(leaf_ids@.take(k + 1).last() == leaf_ids@[k as int]);
            }
            // ignore all deleted field
            if let Some(column) = block_metas[i].meta.column_meta(leaf_ids[k]) {
                read_bytes = read_bytes + column.len;
            }
            k += 1;
        }
        assert(leaf_ids@.take(k as int) =~= leaf_ids@);
        i += 1;
        if remaining > rows {
            remaining = remaining - rows;
        } else {
            // the last block we shall take
            if remaining != rows {
                is_exact = false;
            }
            proof {
                assert(limited(blocks, limit as int) == i);
                assert(part_views(partitions@) =~= parts_of(blocks, selection, *top_k, i as nat));
            }
            break;
        }
    }
    assert(part_views(partitions@) =~= parts_of(
        blocks,
        selection,
        *top_k,
        limited(blocks, limit as int) as nat,
    ));
    let mut statistics = PartStatistics::default_exact();
    statistics.read_rows = read_rows;
    statistics.read_bytes = read_bytes;
    statistics.is_exact = is_exact;
    (statistics, Partitions { kind: PartitionsShuffleKind::InOrder, partitions })
}

pub open spec fn all_selected(deleted: Option<&HashSet<u32>>) -> Selection {
    Selection::AllColumns(
        match deleted {
            Some(d) => Some(d@),
            None => None,
        },
    )
}

/// What blocks are sorted by for the top rows: the least and the greatest value, or both turned
/// round.
pub open spec fn sort_key(meta: BlockMeta, top_k: TopK) -> (int, int) {
    let stat = stats_by_id(meta.col_stats@)[top_k.column_id];
    if top_k.asc {
        (stat.min as int, stat.max as int)
    } else {
        (-(stat.max as int), -(stat.min as int))
    }
}

pub open spec fn key_le(a: (int, int), b: (int, int)) -> bool {
    a.0 < b.0 || (a.0 == b.0 && a.1 <= b.1)
}

/// Where a block goes among the first `n` blocks: behind the last one that does not come after
/// it.
pub open spec fn insertion_point(s: Seq<PrunedBlock>, key: (int, int), top_k: TopK, n: nat) -> nat
    decreases n,
{
    if n == 0 {
        0
    } else if key_le(sort_key(s[n - 1].meta, top_k), key) {
        n
    } else {
        insertion_point(s, key, top_k, (n - 1) as nat)
    }
}

/// The first `n` blocks sorted for the top rows; blocks of one key keep their order.
pub open spec fn sorted_blocks(s: Seq<PrunedBlock>, top_k: TopK, n: nat) -> Seq<PrunedBlock>
    decreases n,
{
    if n == 0 {
        Seq::empty()
    } else {
        let before = sorted_blocks(s, top_k, (n - 1) as nat);
        let b = s[n - 1];
        before.insert(insertion_point(before, sort_key(b.meta, top_k), top_k, before.len()) as int, b)
    }
}

/// The blocks in the order in which they are read.
pub open spec fn reading_order(s: Seq<PrunedBlock>, top_k: Option<TopK>) -> Seq<PrunedBlock> {
    match top_k {
        Some(k) => sorted_blocks(s, k, s.len()),
        None => s,
    }
}

proof fn lemma_insertion_point(s: Seq<PrunedBlock>, key: (int, int), top_k: TopK, n: nat)
    requires
        n <= s.len(),
    ensures
        insertion_point(s, key, top_k, n) <= n,
        forall|j: int|
            insertion_point(s, key, top_k, n) <= j < n ==> !key_le(sort_key((#[trigger] s[j]).meta, top_k), key),
        insertion_point(s, key, top_k, n) > 0 ==> key_le(
            sort_key(s[insertion_point(s, key, top_k, n) - 1].meta, top_k),
            key,
        ),
    decreases n,
{
    if n > 0 && !key_le(sort_key(s[n - 1].meta, top_k), key) {
        lemma_insertion_point(s, key, top_k, (n - 1) as nat);
    }
}

/// Sorting for the top rows drops no block and adds none, and the blocks come out in the order
/// of their keys.
pub proof fn sorted_blocks_are_in_order(s: Seq<PrunedBlock>, top_k: TopK, n: nat)
    requires
        n <= s.len(),
    ensures
        sorted_blocks(s, top_k, n).len() == n,
        sorted_blocks(s, top_k, n).to_multiset() == s.take(n as int).to_multiset(),
        forall|i: int, j: int|
            #![trigger sorted_blocks(s, top_k, n)[i], sorted_blocks(s, top_k, n)[j]]
            0 <= i < j < n ==> key_le(
                sort_key(sorted_blocks(s, top_k, n)[i].meta, top_k),
                sort_key(sorted_blocks(s, top_k, n)[j].meta, top_k),
            ),
    decreases n,
{
    if n == 0 {
        assert(s.take(0) =~= Seq::<PrunedBlock>::empty());
    } else {
        sorted_blocks_are_in_order(s, top_k, (n - 1) as nat);
        let before = sorted_blocks(s, top_k, (n - 1) as nat);
        let b = s[n - 1];
        let key = sort_key(b.meta, top_k);
        let at = insertion_point(before, key, top_k, before.len()) as int;
        lemma_insertion_point(before, key, top_k, before.len());
        let now = sorted_blocks(s, top_k, n);
        assert(now == before.insert(at, b));
        vstd::seq_lib::to_multiset_insert(before, at, b);
        assert(s.take(n as int) =~= s.take(n - 1).push(b));
        s.take(n - 1).to_multiset_ensures();
        assert forall|i: int, j: int| #![trigger now[i], now[j]] 0 <= i < j < n implies key_le(
            sort_key(now[i].meta, top_k),
            sort_key(now[j].meta, top_k),
        ) by {
            let x = if i < at { i } else { i - 1 };
            let y = if j < at { j } else { j - 1 };
            if j == at {
                assert(now[i] == before[i]);
                if i < at - 1 {
                    assert(key_le(sort_key(before[i].meta, top_k), sort_key(before[at - 1].meta, top_k)));
                }
            } else if i == at {
                assert(now[j] == before[y]);
            } else {
                assert(now[i] == before[x] && now[j] == before[y]);
            }
        }
    }
}

fn exec_sort_key(meta: &BlockMeta, top_k: TopK) -> (r: (i128, i128))
    requires
        has_stat(*meta, Some(top_k)),
    ensures
        (r.0 as int, r.1 as int) == sort_key(*meta, top_k),
{
    match meta.column_stat(top_k.column_id) {
        Some(stat) => if top_k.asc {
            (stat.min as i128, stat.max as i128)
        } else {
            (-(stat.max as i128), -(stat.min as i128))
        },
        None => (0, 0),
    }
}

fn sort_blocks(blocks: Vec<PrunedBlock>, top_k: TopK) -> (r: Vec<PrunedBlock>)
    requires
        forall|i: int| 0 <= i < blocks@.len() ==> has_stat((#[trigger] blocks@[i]).meta, Some(top_k)),
    ensures
        r@ == sorted_blocks(blocks@, top_k, blocks@.len()),
        forall|i: int| 0 <= i < r@.len() ==> has_stat((#[trigger] r@[i]).meta, Some(top_k)),
{
    let ghost all = blocks@;
    let total: usize = blocks.len();
    let mut rest = blocks;
    let mut r: Vec<PrunedBlock> = Vec::new();
    let mut n: usize = 0;
    while n < total
        invariant
            n <= total,
            total == all.len(),
            rest@ == all.skip(n as int),
            forall|i: int| 0 <= i < all.len() ==> has_stat((#[trigger] all[i]).meta, Some(top_k)),
            r@ == sorted_blocks(all, top_k, n as nat),
            r@.len() == n,
            forall|i: int| 0 <= i < r@.len() ==> has_stat((#[trigger] r@[i]).meta, Some(top_k)),
        decreases total - n,
    {
        let b = rest.remove(0);
        let ghost before = r@;
        proof {
            assert(all.skip(n as int)[0] == all[n as int]);
            assert(rest@ =~= all.skip(n + 1));
            assert(has_stat(all[n as int].meta, Some(top_k)));
        }
        let key = exec_sort_key(&b.meta, top_k);
        let ghost k = sort_key(b.meta, top_k);
        let mut at: usize = r.len();
        let mut found = false;
        while at > 0 && !found
            invariant
                at <= r@.len(),
                r@ == before,
                k == (key.0 as int, key.1 as int),
                forall|i: int| 0 <= i < r@.len() ==> has_stat((#[trigger] r@[i]).meta, Some(top_k)),
                !found ==> insertion_point(before, k, top_k, before.len()) == insertion_point(before, k, top_k, at as nat),
                found ==> insertion_point(before, k, top_k, before.len()) == at,
            decreases at, (if found {
                0int
            } else {
                1
            }),
        {
            assert(has_stat(r@[at - 1].meta, Some(top_k)));
            let other = exec_sort_key(&r[at - 1].meta, top_k);
            if other.0 < key.0 || (other.0 == key.0 && other.1 <= key.1) {
                found = true;
            } else {
                at -= 1;
            }
        }
        r.insert(at, b);
        n += 1;
    }
    r
}

/// The limit on the rows that are read: that of the query, unless it filters or orders.
pub open spec fn row_limit(push_down: Option<PushDownInfo>) -> int {
    match push_down {
        Some(p) => if !p.has_order_by && !p.has_filters {
            match p.limit {
                Some(n) => n as int,
                None => usize::MAX as int,
            }
        } else {
            usize::MAX as int
        },
        None => usize::MAX as int,
    }
}

/// Which columns a query reads.
pub open spec fn query_selection(deleted: Option<&HashSet<u32>>, push_down: Option<PushDownInfo>) -> Selection {
    match push_down {
        Some(p) => match p.projection {
            Some(ids) => Selection::Projection(ids@),
            None => all_selected(deleted),
        },
        None => all_selected(deleted),
    }
}

pub open spec fn is_exact(push_down: Option<PushDownInfo>) -> bool {
    match push_down {
        Some(p) => !p.has_filters,
        None => true,
    }
}

/// How the parts of a query are spread.
pub open spec fn shuffle_kind(push_down: Option<PushDownInfo>, top_k: Option<TopK>) -> PartitionsShuffleKind {
    if top_k is Some || (push_down matches Some(p) && p.projection is Some) {
        PartitionsShuffleKind::InOrder
    } else {
        PartitionsShuffleKind::Mod
    }
}

/// The parts that a query reads, and statistics of them.
pub fn to_partitions(
    deleted: Option<&HashSet<u32>>,
    block_metas: Vec<PrunedBlock>,
    top_k: Option<TopK>,
    push_down: &Option<PushDownInfo>,
) -> (r: (PartStatistics, Partitions))
    requires
        countable(reading_order(block_metas@, top_k), query_selection(deleted, *push_down)),
        forall|i: int| 0 <= i < block_metas@.len() ==> has_stat((#[trigger] block_metas@[i]).meta, top_k),
    ensures
        ({
            let blocks = reading_order(block_metas@, top_k);
            let selection = query_selection(deleted, *push_down);
            let limit = row_limit(*push_down);
            &&& r.0 == (PartStatistics {
                is_exact: statistics_of(blocks, selection, limit).is_exact && is_exact(*push_down),
                ..statistics_of(blocks, selection, limit)
            })
            &&& r.1.kind == shuffle_kind(*push_down, top_k)
            &&& part_views(r.1.partitions@) == parts_of(blocks, selection, top_k, limited(blocks, limit) as nat)
        }),
{
    let limit: usize = match push_down {
        Some(p) => if !p.has_order_by && !p.has_filters {
            p.limit.unwrap_or(usize::MAX)
        } else {
            usize::MAX
        },
        None => usize::MAX,
    };
    let ordered = match top_k {
        Some(k) => sort_blocks(block_metas, k),
        None => block_metas,
    };
    let result = match push_down {
        None => all_columns_partitions(deleted, &ordered, &top_k, limit as u64),
        Some(extras) => match &extras.projection {
            None => all_columns_partitions(deleted, &ordered, &top_k, limit as u64),
            Some(projection) => projection_partitions(projection, &ordered, &top_k, limit as u64),
        },
    };
    let (mut statistics, mut partitions) = result;
    if top_k.is_some() {
        partitions.kind = PartitionsShuffleKind::InOrder;
    }
    let exact = match push_down {
        None => true,
        Some(extra) => !extra.has_filters,
    };
    statistics.is_exact = statistics.is_exact && exact;
    (statistics, partitions)
}

/// The parts that a query reads of the blocks that are left after pruning.
pub fn read_partitions_with_metas(
    deleted: Option<&HashSet<u32>>,
    block_metas: Vec<PrunedBlock>,
    top_k: Option<TopK>,
    push_downs: &Option<PushDownInfo>,
    partitions_total: usize,
    pruning_stats: PruningStatistics,
) -> (r: (PartStatistics, Partitions))
    requires
        countable(reading_order(block_metas@, top_k), query_selection(deleted, *push_downs)),
        forall|i: int| 0 <= i < block_metas@.len() ==> has_stat((#[trigger] block_metas@[i]).meta, top_k),
    ensures
        ({
            let blocks = reading_order(block_metas@, top_k);
            let selection = query_selection(deleted, *push_downs);
            let limit = row_limit(*push_downs);
            &&& r.0 == (PartStatistics {
                is_exact: statistics_of(blocks, selection, limit).is_exact && is_exact(*push_downs),
                partitions_total,
                partitions_scanned: block_metas@.len() as usize,
                pruning_stats,
                ..statistics_of(blocks, selection, limit)
            })
            &&& r.1.kind == shuffle_kind(*push_downs, top_k)
            &&& part_views(r.1.partitions@) == parts_of(blocks, selection, top_k, limited(blocks, limit) as nat)
        }),
{
    let partitions_scanned: usize = block_metas.len();
    let (mut statistics, parts) = to_partitions(deleted, block_metas, top_k, push_downs);
    statistics.partitions_total = partitions_total;
    statistics.partitions_scanned = partitions_scanned;
    statistics.pruning_stats = pruning_stats;
    (statistics, parts)
}

/// How the blocks of a table are pruned.
#[derive(Clone, Copy, Debug, PartialEq, Eq, Structural)]
pub enum PrunerKind {
    Blocks,
    /// Pages of blocks are pruned as well.
    BlocksAndPages,
}

/// How the blocks of a table are pruned: by pages too where the table is kept in the native format
/// and is clustered.
pub fn prune_snapshot_blocks(is_native: bool, has_cluster_key: bool) -> (r: PrunerKind)
    ensures
        r == (if is_native && has_cluster_key {
            PrunerKind::BlocksAndPages
        } else {
            PrunerKind::Blocks
        }),
{
    if !is_native || !has_cluster_key {
        PrunerKind::Blocks
    } else {
        PrunerKind::BlocksAndPages
    }
}

/// A snapshot of a table, as far as reading it is planned.
#[derive(Debug)]
pub struct SnapshotSummary {
    pub row_count: u64,
    pub compressed_byte_size: u64,
    pub block_count: u64,
    pub segments: Vec<u64>,
}

/// How a table is read.
#[derive(Debug)]
pub enum ReadPlan {
    /// There is nothing to read.
    Nothing,
    /// The segments are pruned where they are read, so the statistics are estimates.
    LazySegments { statistics: PartStatistics, kind: PartitionsShuffleKind, segments: Vec<u64> },
    /// The blocks of the segments are pruned now.
    Prune { segments: Vec<u64>, partitions_total: u64 },
}

/// How a table is read.
pub fn do_read_partitions(snapshot: &Option<SnapshotSummary>, enable_distributed_eval_index: bool) -> (r: ReadPlan)
    ensures
        match *snapshot {
            None => r is Nothing,
            Some(s) => if enable_distributed_eval_index {
                r matches ReadPlan::LazySegments { statistics, kind, segments } && {
                    &&& statistics == (PartStatistics {
                        read_rows: s.row_count,
                        read_bytes: s.compressed_byte_size,
                        partitions_scanned: s.segments@.len() as usize,
                        partitions_total: s.segments@.len() as usize,
                        is_exact: false,
                        pruning_stats: no_pruning(),
                    })
                    &&& kind == PartitionsShuffleKind::Mod
                    &&& segments@ == s.segments@
                }
            } else {
                r matches ReadPlan::Prune { segments, partitions_total } && segments@ == s.segments@
                    && partitions_total == s.block_count
            },
        },
{
    match snapshot {
        None => ReadPlan::Nothing,
        Some(s) => {
            let segments = s.segments.clone();
            assert(segments@ =~= s.segments@);
            if enable_distributed_eval_index {
                let mut statistics = PartStatistics::default_exact();
                statistics.read_rows = s.row_count;
                statistics.read_bytes = s.compressed_byte_size;
                statistics.partitions_scanned = s.segments.len();
                statistics.partitions_total = s.segments.len();
                statistics.is_exact = false;
                ReadPlan::LazySegments { statistics, kind: PartitionsShuffleKind::Mod, segments }
            } else {
                ReadPlan::Prune { segments, partitions_total: s.block_count }
            }
        },
    }
}

/// The blocks that are read hold as many rows as are asked for, or they are all there are; and
/// without the last of them there would be too few.
pub proof fn enough_blocks_are_read(blocks: Seq<PrunedBlock>, limit: int)
    requires
        limit > 0,
    ensures
        limited(blocks, limit) <= blocks.len(),
        total_rows(blocks, limited(blocks, limit)) >= limit || limited(blocks, limit) == blocks.len(),
        limited(blocks, limit) > 0 ==> total_rows(blocks, limited(blocks, limit) - 1) < limit,
{
    lemma_enough(blocks, 0, limit, limit);
}

proof fn lemma_enough(blocks: Seq<PrunedBlock>, i: nat, remaining: int, limit: int)
    requires
        i <= blocks.len(),
        remaining > 0,
        remaining == limit - total_rows(blocks, i as int),
    ensures
        i + blocks_taken(blocks, i, remaining) <= blocks.len(),
        total_rows(blocks, (i + blocks_taken(blocks, i, remaining)) as int) >= limit || i + blocks_taken(
            blocks,
            i,
            remaining,
        ) == blocks.len(),
        blocks_taken(blocks, i, remaining) > 0 ==> total_rows(
            blocks,
            (i + blocks_taken(blocks, i, remaining)) as int - 1,
        ) < limit,
    decreases blocks.len() - i,
{
    if i < blocks.len() && remaining > blocks[i as int].meta.row_count {
        lemma_enough(blocks, i + 1, remaining - blocks[i as int].meta.row_count, limit);
    }
}

/// The sum of integers.
pub open spec fn sum(s: Seq<int>) -> int {
    s.fold_left(0int, |total: int, x: int| total + x)
}

proof fn lemma_sum_push(s: Seq<int>, x: int)
    ensures
        sum(s.push(x)) == sum(s) + x,
{
    assert(s.push(x).drop_last() =~= s);
}

/// How many rows the blocks have.
pub open spec fn row_counts(blocks: Seq<PrunedBlock>) -> Seq<int> {
    blocks.map_values(|b: PrunedBlock| b.meta.row_count as int)
}

proof fn lemma_rows_are_summed(blocks: Seq<PrunedBlock>, n: int)
    requires
        0 <= n <= blocks.len(),
    ensures
        total_rows(blocks, n) == sum(row_counts(blocks.take(n))),
    decreases n,
{
    if n > 0 {
        lemma_rows_are_summed(blocks, n - 1);
        assert(row_counts(blocks.take(n)) =~= row_counts(blocks.take(n - 1)).push(blocks[n - 1].meta.row_count as int));
        lemma_sum_push(row_counts(blocks.take(n - 1)), blocks[n - 1].meta.row_count as int);
    } else {
        assert(row_counts(blocks.take(0)) =~= Seq::<int>::empty());
    }
}

/// What a query reads, as `to_partitions` gives it.
pub open spec fn parts_read(
    blocks: Seq<PrunedBlock>,
    top_k: Option<TopK>,
    deleted: Option<&HashSet<u32>>,
    push_down: Option<PushDownInfo>,
) -> Seq<PartView> {
    let ordered = reading_order(blocks, top_k);
    parts_of(
        ordered,
        query_selection(deleted, push_down),
        top_k,
        limited(ordered, row_limit(push_down)) as nat,
    )
}

/// Where a query orders or filters, or has no limit, every block is read, whatever the limit: each
/// block is among the parts as often as it is among the blocks, and without a column by which the
/// top rows are taken the parts are in the order of the blocks.
pub proof fn a_limit_does_not_cut_an_ordered_or_filtered_query(
    blocks: Seq<PrunedBlock>,
    top_k: Option<TopK>,
    deleted: Option<&HashSet<u32>>,
    push_down: Option<PushDownInfo>,
)
    requires
        push_down matches Some(p) ==> p.has_order_by || p.has_filters || p.limit is None,
        sum(row_counts(reading_order(blocks, top_k))) < usize::MAX,
    ensures
        ({
            let parts = parts_read(blocks, top_k, deleted, push_down);
            &&& parts.len() == blocks.len()
            &&& parts.map_values(|p: PartView| p.location).to_multiset() == blocks.map_values(
                |b: PrunedBlock| b.meta.location@,
            ).to_multiset()
            &&& top_k is None ==> forall|i: int|
                0 <= i < blocks.len() ==> (#[trigger] parts[i]).location == blocks[i].meta.location@
        }),
{
    let ordered = reading_order(blocks, top_k);
    let limit = row_limit(push_down);
    if let Some(k) = top_k {
        sorted_blocks_are_in_order(blocks, k, blocks.len());
        assert(blocks.take(blocks.len() as int) =~= blocks);
    }
    enough_blocks_are_read(ordered, limit);
    let n = limited(ordered, limit);
    lemma_totals_grow(ordered, Selection::AllColumns(None), n, ordered.len() as int);
    lemma_rows_are_summed(ordered, ordered.len() as int);
    assert(ordered.take(ordered.len() as int) =~= ordered);
    assert(n == ordered.len());
    let of = |b: PrunedBlock| b.meta.location@;
    lemma_map_keeps_multiset(ordered, blocks, of);
    assert(parts_read(blocks, top_k, deleted, push_down).map_values(|p: PartView| p.location) =~= ordered.map_values(of));
}

/// Where a query neither orders nor filters, its limit cuts the blocks: none is read for no rows;
/// otherwise the first ones in reading order that have enough rows are, and without the last of
/// them there would be too few.
pub proof fn a_limit_cuts_a_plain_query(
    blocks: Seq<PrunedBlock>,
    top_k: Option<TopK>,
    deleted: Option<&HashSet<u32>>,
    p: PushDownInfo,
    limit: usize,
)
    requires
        !p.has_order_by,
        !p.has_filters,
        p.limit == Some(limit),
    ensures
        ({
            let parts = parts_read(blocks, top_k, deleted, Some(p));
            let ordered = reading_order(blocks, top_k);
            let rows = parts.map_values(|q: PartView| q.nums_rows as int);
            &&& parts.len() <= ordered.len()
            &&& forall|i: int| 0 <= i < parts.len() ==> (#[trigger] parts[i]).location == ordered[i].meta.location@
            &&& limit == 0 ==> parts.len() == 0
            &&& limit > 0 ==> sum(rows) >= limit || parts.len() == ordered.len()
            &&& parts.len() > 0 ==> sum(rows.drop_last()) < limit
        }),
{
    let ordered = reading_order(blocks, top_k);
    let parts = parts_read(blocks, top_k, deleted, Some(p));
    let rows = parts.map_values(|q: PartView| q.nums_rows as int);
    if limit > 0 {
        enough_blocks_are_read(ordered, limit as int);
        let n = limited(ordered, limit as int);
        lemma_rows_are_summed(ordered, n);
        assert(rows =~= row_counts(ordered.take(n)));
        if n > 0 {
            lemma_rows_are_summed(ordered, n - 1);
            assert(rows.drop_last() =~= row_counts(ordered.take(n - 1)));
        }
    }
}

/// The statistics of a read count the rows of the parts that are read. They are exact where the
/// query filters nothing and no part has rows beyond the limit.
pub proof fn statistics_count_what_is_read(
    blocks: Seq<PrunedBlock>,
    top_k: Option<TopK>,
    deleted: Option<&HashSet<u32>>,
    push_down: Option<PushDownInfo>,
)
    requires
        countable(reading_order(blocks, top_k), query_selection(deleted, push_down)),
    ensures
        ({
            let parts = parts_read(blocks, top_k, deleted, push_down);
            let ordered = reading_order(blocks, top_k);
            let limit = row_limit(push_down);
            let rows = parts.map_values(|q: PartView| q.nums_rows as int);
            let s = statistics_of(ordered, query_selection(deleted, push_down), limit);
            &&& s.read_rows as int == sum(rows)
            &&& s.is_exact <==> sum(rows) <= limit
        }),
{
    let ordered = reading_order(blocks, top_k);
    let selection = query_selection(deleted, push_down);
    let limit = row_limit(push_down);
    let parts = parts_read(blocks, top_k, deleted, push_down);
    let rows = parts.map_values(|q: PartView| q.nums_rows as int);
    if limit > 0 {
        enough_blocks_are_read(ordered, limit);
        let n = limited(ordered, limit);
        lemma_totals_grow(ordered, selection, n, ordered.len() as int);
        lemma_rows_are_summed(ordered, n);
        assert(rows =~= row_counts(ordered.take(n)));
        lemma_exact(ordered, 0, limit, limit);
    } else {
        assert(rows =~= Seq::<int>::empty());
        assert(total_rows(ordered, 0) == 0);
    }
}

proof fn lemma_exact(blocks: Seq<PrunedBlock>, i: nat, remaining: int, limit: int)
    requires
        i <= blocks.len(),
        remaining > 0,
        remaining == limit - total_rows(blocks, i as int),
    ensures
        taken_exactly(blocks, i, remaining) <==> total_rows(
            blocks,
            (i + blocks_taken(blocks, i, remaining)) as int,
        ) <= limit,
    decreases blocks.len() - i,
{
    if i < blocks.len() && remaining > blocks[i as int].meta.row_count {
        lemma_exact(blocks, i + 1, remaining - blocks[i as int].meta.row_count, limit);
    }
}

/// A column of a block is looked up by its id: there is one where one of its metas has the id, and
/// it is that one where no other has it.
pub proof fn columns_are_found_by_id(metas: Seq<(u32, ColumnMeta)>, id: u32)
    ensures
        metas_by_id(metas).contains_key(id) <==> exists|i: int| 0 <= i < metas.len() && (#[trigger] metas[i]).0 == id,
        forall|i: int|
            0 <= i < metas.len() && (#[trigger] metas[i]).0 == id && (forall|j: int|
                0 <= j < metas.len() && j != i ==> (#[trigger] metas[j]).0 != id) ==> metas_by_id(metas)[id] == metas[i].1,
    decreases metas.len(),
{
    if metas.len() > 0 {
        let before = metas.drop_last();
        columns_are_found_by_id(before, id);
        assert(metas[metas.len() - 1] == metas.last());
        assert forall|i: int| 0 <= i < before.len() implies #[trigger] metas[i] == before[i] by {}
        if exists|i: int| 0 <= i < before.len() && (#[trigger] before[i]).0 == id {
            let i = choose|i: int| 0 <= i < before.len() && (#[trigger] before[i]).0 == id;
            assert(metas[i].0 == id);
        }
        assert forall|i: int|
            0 <= i < metas.len() && (#[trigger] metas[i]).0 == id && (forall|j: int|
                0 <= j < metas.len() && j != i ==> (#[trigger] metas[j]).0 != id) implies metas_by_id(metas)[id]
            == metas[i].1 by {
            if i < before.len() {
                assert(metas[metas.len() - 1].0 != id);
                assert(before[i].0 == id);
                assert forall|j: int| 0 <= j < before.len() && j != i implies (#[trigger] before[j]).0 != id by {
                    assert(metas[j].0 != id);
                }
            }
        }
    }
}

/// A column of a block is read exactly where the query asks for it: one of its projection, or, where
/// it has none, any that has not been deleted. What is read is the column that the block has.
pub proof fn the_columns_that_are_asked_for_are_read(
    meta: BlockMeta,
    deleted: Option<&HashSet<u32>>,
    push_down: Option<PushDownInfo>,
    id: u32,
)
    ensures
        ({
            let read = selected_columns(meta, query_selection(deleted, push_down));
            let asked = match push_down {
                Some(p) => match p.projection {
                    Some(ids) => exists|i: int| 0 <= i < ids@.len() && #[trigger] ids@[i] == id,
                    None => deleted matches Some(d) ==> !d@.contains(id),
                },
                None => deleted matches Some(d) ==> !d@.contains(id),
            };
            &&& read.contains_key(id) <==> asked && exists|i: int|
                0 <= i < meta.col_metas@.len() && (#[trigger] meta.col_metas@[i]).0 == id
            &&& read.contains_key(id) ==> exists|i: int|
                0 <= i < meta.col_metas@.len() && (#[trigger] meta.col_metas@[i]) == (id, read[id])
        }),
{
    columns_are_found_by_id(meta.col_metas@, id);
    if metas_by_id(meta.col_metas@).contains_key(id) {
        lemma_found_meta(meta.col_metas@, id);
    }
    if let Some(p) = push_down {
        if let Some(ids) = p.projection {
            assert(ids@.to_set().contains(id) <==> ids@.contains(id));
        }
    }
}

proof fn lemma_found_meta(metas: Seq<(u32, ColumnMeta)>, id: u32)
    requires
        metas_by_id(metas).contains_key(id),
    ensures
        exists|i: int| 0 <= i < metas.len() && (#[trigger] metas[i]) == (id, metas_by_id(metas)[id]),
    decreases metas.len(),
{
    if metas.len() > 0 {
        let before = metas.drop_last();
        if metas.last().0 == id {
            assert(metas[metas.len() - 1] == (id, metas_by_id(metas)[id]));
        } else {
            lemma_found_meta(before, id);
            let i = choose|i: int| 0 <= i < before.len() && (#[trigger] before[i]) == (id, metas_by_id(before)[id]);
            assert(metas[i] == before[i]);
        }
    }
}

/// The parts for the top rows come with the least and the greatest value of their block, and in
/// the order in which the top rows can be found: by the least value where they ascend, and from
/// the greatest value down where they descend.
pub proof fn top_rows_are_sought_first(
    blocks: Seq<PrunedBlock>,
    k: TopK,
    deleted: Option<&HashSet<u32>>,
    push_down: Option<PushDownInfo>,
    i: int,
    j: int,
)
    requires
        0 <= i < j < parts_read(blocks, Some(k), deleted, push_down).len(),
    ensures
        ({
            let parts = parts_read(blocks, Some(k), deleted, push_down);
            parts[i].sort_min_max matches Some((min, max)) && (parts[j].sort_min_max matches Some((later_min, later_max))
                && if k.asc {
                min < later_min || (min == later_min && max <= later_max)
            } else {
                max > later_max || (max == later_max && min >= later_min)
            })
        }),
{
    let ordered = reading_order(blocks, Some(k));
    sorted_blocks_are_in_order(blocks, k, blocks.len());
    let limit = row_limit(push_down);
    if limit > 0 {
        enough_blocks_are_read(ordered, limit);
    }
    assert(key_le(sort_key(ordered[i].meta, k), sort_key(ordered[j].meta, k)));
}

/// Parts go to the executors in order where the query takes its top rows or names its columns; they
/// are spread by their hashes otherwise. Statistics of a query that filters are never exact.
pub proof fn how_parts_are_spread(push_down: Option<PushDownInfo>, top_k: Option<TopK>)
    ensures
        top_k is Some ==> shuffle_kind(push_down, top_k) == PartitionsShuffleKind::InOrder,
        push_down matches Some(p) && p.projection is Some ==> shuffle_kind(push_down, top_k)
            == PartitionsShuffleKind::InOrder,
        top_k is None && (push_down matches Some(p) ==> p.projection is None) ==> shuffle_kind(push_down, top_k)
            == PartitionsShuffleKind::Mod,
        is_exact(push_down) <==> !(push_down matches Some(p) && p.has_filters),
{
}

/// A part is its block: where it is kept and how, its rows, the pages of it that are read and the
/// rows of it that are deleted.
pub proof fn a_part_is_its_block(
    blocks: Seq<PrunedBlock>,
    top_k: Option<TopK>,
    deleted: Option<&HashSet<u32>>,
    push_down: Option<PushDownInfo>,
    i: int,
)
    requires
        0 <= i < parts_read(blocks, top_k, deleted, push_down).len(),
    ensures
        ({
            let p = parts_read(blocks, top_k, deleted, push_down)[i];
            let b = reading_order(blocks, top_k)[i];
            &&& p.location == b.meta.location@
            &&& p.format_version == b.meta.format_version
            &&& p.nums_rows == b.meta.row_count
            &&& p.compression == b.meta.compression
            &&& p.range == b.range
            &&& p.columns_meta == selected_columns(b.meta, query_selection(deleted, push_down))
            &&& p.delete_mark is Some <==> b.meta.delete_mask_location is Some
            &&& p.delete_mark matches Some((location, size)) ==> b.meta.delete_mask_location == Some(location) && size
                == b.meta.delete_mark_size
            &&& p.sort_min_max is Some <==> top_k is Some
            &&& top_k matches Some(k) ==> p.sort_min_max == Some(
                (stats_by_id(b.meta.col_stats@)[k.column_id].min, stats_by_id(b.meta.col_stats@)[k.column_id].max),
            )
        }),
{
}

/// The statistics of a column of a block are looked up by its id.
pub proof fn statistics_are_found_by_id(stats: Seq<(u32, ColumnStatistics)>, id: u32)
    ensures
        stats_by_id(stats).contains_key(id) <==> exists|i: int| 0 <= i < stats.len() && (#[trigger] stats[i]).0 == id,
        stats_by_id(stats).contains_key(id) ==> exists|i: int|
            0 <= i < stats.len() && (#[trigger] stats[i]) == (id, stats_by_id(stats)[id]),
    decreases stats.len(),
{
    if stats.len() > 0 {
        let before = stats.drop_last();
        statistics_are_found_by_id(before, id);
        assert(stats[stats.len() - 1] == stats.last());
        if stats.last().0 == id {
            assert(stats[stats.len() - 1] == (id, stats_by_id(stats)[id]));
        } else {
            if stats_by_id(before).contains_key(id) {
                let i = choose|i: int| 0 <= i < before.len() && (#[trigger] before[i]) == (id, stats_by_id(before)[id]);
                assert(stats[i] == before[i]);
            }
            if exists|i: int| 0 <= i < stats.len() && (#[trigger] stats[i]).0 == id {
                let i = choose|i: int| 0 <= i < stats.len() && (#[trigger] stats[i]).0 == id;
                assert(before[i] == stats[i]);
            }
        }
    }
}

/// The bytes of a read are those of the blocks that are read: their sizes where all columns are
/// read, and the lengths of the columns of the projection otherwise, as far as a block has them.
pub proof fn bytes_of_what_is_read_are_counted(blocks: Seq<PrunedBlock>, selection: Selection, n: int)
    requires
        0 <= n <= blocks.len(),
    ensures
        selection is AllColumns ==> total_bytes(blocks, selection, n) == sum(
            blocks.take(n).map_values(|b: PrunedBlock| b.meta.block_size as int),
        ),
        selection matches Selection::Projection(ids) ==> total_bytes(blocks, selection, n) == sum(
            blocks.take(n).map_values(|b: PrunedBlock| sum(column_lengths(b.meta, ids))),
        ),
    decreases n,
{
    let size = |b: PrunedBlock| b.meta.block_size as int;
    let ids = match selection {
        Selection::Projection(ids) => ids,
        _ => Seq::empty(),
    };
    let lengths = |b: PrunedBlock| sum(column_lengths(b.meta, ids));
    if n > 0 {
        bytes_of_what_is_read_are_counted(blocks, selection, n - 1);
        let b = blocks[n - 1];
        assert(blocks.take(n).map_values(size) =~= blocks.take(n - 1).map_values(size).push(size(b)));
        assert(blocks.take(n).map_values(lengths) =~= blocks.take(n - 1).map_values(lengths).push(lengths(b)));
        lemma_sum_push(blocks.take(n - 1).map_values(size), size(b));
        lemma_sum_push(blocks.take(n - 1).map_values(lengths), lengths(b));
        lemma_lengths_are_summed(b.meta, ids);
    } else {
        assert(blocks.take(0).map_values(size) =~= Seq::<int>::empty());
        assert(blocks.take(0).map_values(lengths) =~= Seq::<int>::empty());
    }
}

/// The lengths of columns of a block; nothing for a column that it does not have.
pub open spec fn column_lengths(meta: BlockMeta, ids: Seq<u32>) -> Seq<int> {
    ids.map_values(
        |id: u32|
            if metas_by_id(meta.col_metas@).contains_key(id) {
                metas_by_id(meta.col_metas@)[id].len as int
            } else {
                0
            },
    )
}

proof fn lemma_lengths_are_summed(meta: BlockMeta, ids: Seq<u32>)
    ensures
        projected_bytes(meta, ids) == sum(column_lengths(meta, ids)),
    decreases ids.len(),
{
    if ids.len() > 0 {
        lemma_lengths_are_summed(meta, ids.drop_last());
        let last = column_lengths(meta, ids).last();
        assert(column_lengths(meta, ids) =~= column_lengths(meta, ids.drop_last()).push(last));
        lemma_sum_push(column_lengths(meta, ids.drop_last()), last);
    } else {
        assert(column_lengths(meta, ids) =~= Seq::<int>::empty());
    }
}

/// Where nothing is read, nothing is counted.
pub proof fn nothing_is_counted_of_nothing(is_exact: bool)
    ensures
        ({
            let s = empty_statistics(is_exact);
            &&& s.read_rows == 0 && s.read_bytes == 0 && s.partitions_scanned == 0 && s.partitions_total == 0
            &&& s.is_exact == is_exact
            &&& s.pruning_stats.segments_before == 0 && s.pruning_stats.segments_after == 0
            &&& s.pruning_stats.blocks_before == 0 && s.pruning_stats.blocks_after == 0
        }),
{
}

}
