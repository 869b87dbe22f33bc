//! Spilling of the build side of a hash join.
//!
//! The rows are spread over eight partitions by the low bits of their hashes, and partitions are
//! moved out of memory as a whole.

use std::collections::HashSet;

use vstd::prelude::*;

use crate::block::block_views;
use crate::block::entry_rows_ok;
use crate::block::rows_ok;
use crate::block::sizes_total;
use crate::block::BlockView;
use crate::block::DataBlock;
use crate::sort_merge::block_rows;
use crate::sort_merge::expanded;
use crate::sort_merge::gathered;
use crate::sort_merge::lemma_gathered_in_turn;
use crate::sort_merge::mergeable;
use crate::sort_merge::table_rows;
use crate::sort_merge::take_by_slices_from_blocks;

verus! {

/// How many partitions there are.
pub const NUM_PARTITIONS: usize = 8;

/// The partition of a row: the low three bits of its hash.
pub open spec fn partition_of(hash: u64) -> u8 {
    (hash as u8) & 7
}

fn partition_id(hash: u64) -> (r: u8)
    ensures
        r == partition_of(hash),
        r < NUM_PARTITIONS,
{
    let b: u8 = hash as u8;
    assert(b & 7 < 8) by (bit_vector);
    b & 7
}

proof fn lemma_partition_range(hash: u64)
    ensures
        partition_of(hash) < NUM_PARTITIONS,
{
    let b = hash as u8;
    assert(b & 7 < 8) by (bit_vector);
}

/// The numbers below `n` that pass a test, in order.
pub open spec fn numbers_where(n: nat, test: spec_fn(int) -> bool) -> Seq<int>
    decreases n,
{
    if n == 0 {
        Seq::empty()
    } else if test(n - 1) {
        numbers_where((n - 1) as nat, test).push(n - 1)
    } else {
        numbers_where((n - 1) as nat, test)
    }
}

/// The rows of a partition.
pub open spec fn partition_rows(hashes: Seq<u64>, p: u8) -> Seq<int> {
    numbers_where(hashes.len(), |i: int| partition_of(hashes[i]) == p)
}

/// The rows whose partitions have not been spilled.
pub open spec fn kept_rows(hashes: Seq<u64>, spilled: Set<u8>) -> Seq<int> {
    numbers_where(hashes.len(), |i: int| !spilled.contains(partition_of(hashes[i])))
}

pub open spec fn row_numbers(v: Seq<usize>) -> Seq<int> {
    v.map_values(|i: usize| i as int)
}

/// The given rows of a block.
pub open spec fn rows_of_block(b: BlockView, rows: Seq<int>) -> BlockView {
    gathered(seq![b], rows.map_values(|i: int| (0int, i)))
}

pub proof fn lemma_numbers_below(n: nat, test: spec_fn(int) -> bool)
    ensures
        forall|i: int| 0 <= i < numbers_where(n, test).len() ==> 0 <= #[trigger] numbers_where(n, test)[i] < n,
        numbers_where(n, test).len() <= n,
    decreases n,
{
    if n > 0 {
        lemma_numbers_below((n - 1) as nat, test);
    }
}

pub proof fn lemma_numbers_contain(n: nat, test: spec_fn(int) -> bool, x: int)
    ensures
        numbers_where(n, test).contains(x) <==> 0 <= x < n && test(x),
    decreases n,
{
    if n > 0 {
        let before = numbers_where((n - 1) as nat, test);
        lemma_numbers_contain((n - 1) as nat, test, x);
        if test(n - 1) {
            let now = before.push(n - 1);
            assert(now == numbers_where(n, test));
            if before.contains(x) {
                let i = choose|i: int| 0 <= i < before.len() && before[i] == x;
                assert(now[i] == x);
            }
            if x == n - 1 {
                assert(now[before.len() as int] == x);
            }
            if now.contains(x) {
                let i = choose|i: int| 0 <= i < now.len() && now[i] == x;
                if i < before.len() {
                    assert(before[i] == x);
                }
            }
        }
    }
}

/// The given rows of a block.
pub(crate) fn take_rows(block: &DataBlock, rows: &Vec<usize>) -> (r: DataBlock)
    requires
        rows_ok(block@.columns, block@.num_rows),
        forall|i: int| 0 <= i < rows@.len() ==> (#[trigger] rows@[i]) < block@.num_rows,
    ensures
        r@ == rows_of_block(block@, row_numbers(rows@)),
{
    let mut slices: Vec<(usize, usize, usize)> = Vec::new();
    let ghost pairs = row_numbers(rows@).map_values(|i: int| (0int, i));
    let mut i: usize = 0;
    assert(expanded(slices@) =~= pairs.take(0));
    while i < rows.len()
        invariant
            i <= rows@.len(),
            pairs == row_numbers(rows@).map_values(|i: int| (0int, i)),
            slices@.len() == i,
            expanded(slices@) == pairs.take(i as int),
            forall|j: int| 0 <= j < i ==> #[trigger] slices@[j] == (0usize, rows@[j], 1usize),
        decreases rows.len() - i,
    {
        let ghost before = slices@;
        slices.push((0, rows[i], 1));
        proof {
            assert(slices@.drop_last() =~= before);
            assert(expanded(slices@) =~= pairs.take(i + 1));
        }
        i += 1;
    }
    let mut blocks: Vec<DataBlock> = Vec::new();
    blocks.push(block.clone());
    proof {
        assert(pairs.take(i as int) =~= pairs);
        assert(block_views(blocks@) =~= seq![block@]);
        assert(mergeable(block_views(blocks@)));
        let views = block_views(blocks@);
        assert forall|j: int|
            #![trigger slices@[j]]
            0 <= j < slices@.len() implies slices@[j].0 < views.len() && slices@[j].1 + slices@[j].2
            <= views[slices@[j].0 as int].num_rows by {
            assert(rows@[j] < block@.num_rows);
        }
    }
    take_by_slices_from_blocks(&blocks, &slices, rows.len())
}

/// The partitions of the rows: list `p` holds the rows of partition `p`.
fn partition(hashes: &Vec<u64>) -> (r: Vec<Vec<usize>>)
    ensures
        r@.len() == NUM_PARTITIONS,
        forall|p: u8| p < NUM_PARTITIONS ==> row_numbers((#[trigger] r@[p as int])@) == partition_rows(hashes@, p),
{
    let mut r: Vec<Vec<usize>> = Vec::new();
    let mut k: usize = 0;
    while k < NUM_PARTITIONS
        invariant
            k <= NUM_PARTITIONS,
            r@.len() == k,
            forall|j: int| 0 <= j < k ==> (#[trigger] r@[j])@.len() == 0,
        decreases NUM_PARTITIONS - k,
    {
        r.push(Vec::new());
        k += 1;
    }
    let mut i: usize = 0;
    proof {
        assert forall|p: u8| p < NUM_PARTITIONS implies row_numbers((#[trigger] r@[p as int])@) == numbers_where(
            0,
            |j: int| partition_of(hashes@[j]) == p,
        ) by {
            assert(row_numbers(r@[p as int]@) =~= Seq::<int>::empty());
        }
    }
    while i < hashes.len()
        invariant
            i <= hashes@.len(),
            r@.len() == NUM_PARTITIONS,
            forall|p: u8|
                p < NUM_PARTITIONS ==> row_numbers((#[trigger] r@[p as int])@) == numbers_where(
                    i as nat,
                    |j: int| partition_of(hashes@[j]) == p,
                ),
        decreases hashes.len() - i,
    {
        let id: u8 = partition_id(hashes[i]);
        let ghost before = r@;
        r[id as usize].push(i);
        proof {
            assert forall|p: u8| p < NUM_PARTITIONS implies row_numbers((#[trigger] r@[p as int])@) == numbers_where(
                (i + 1) as nat,
                |j: int| partition_of(hashes@[j]) == p,
            ) by {
                assert(row_numbers(before[p as int]@) == numbers_where(i as nat, |j: int| partition_of(hashes@[j]) == p));
                if p == id {
                    assert(row_numbers(r@[p as int]@) =~= row_numbers(before[p as int]@).push(i as int));
                }
            }
        }
        i += 1;
    }
    r
}

/// What a spill works on.
#[derive(Debug)]
pub struct Spiller {
    /// Blocks that wait to be spilled.
    pub input_data: Vec<DataBlock>,
    /// The partitions that there are.
    pub partition_set: Vec<u8>,
    /// The rows of the partitions.
    pub partitions: Vec<(u8, DataBlock)>,
    /// The partitions that have been spilled.
    pub spilled_partition_set: HashSet<u8>,
}

/// Define some states for hash join build spilling
#[derive(Debug)]
pub struct BuildSpillState {
    /// Spilling memory threshold
    pub spill_memory_threshold: usize,
    /// Spiller, responsible for specific spill work
    pub spiller: Spiller,
}

pub open spec fn partition_views(v: Seq<(u8, DataBlock)>) -> Seq<(u8, BlockView)> {
    v.map_values(|p: (u8, DataBlock)| (p.0, p.1@))
}

/// The partitions below `n` that have rows, each with its rows.
pub open spec fn filled_partitions(b: BlockView, hashes: Seq<u64>, n: nat) -> Seq<(u8, BlockView)>
    decreases n,
{
    if n == 0 {
        Seq::empty()
    } else {
        let before = filled_partitions(b, hashes, (n - 1) as nat);
        let rows = partition_rows(hashes, (n - 1) as u8);
        if rows.len() > 0 {
            before.push(((n - 1) as u8, rows_of_block(b, rows)))
        } else {
            before
        }
    }
}

/// The spilled partitions below `n` that have rows, each with its rows.
pub open spec fn spilled_parts(b: BlockView, hashes: Seq<u64>, spilled: Set<u8>, n: nat) -> Seq<(u8, BlockView)>
    decreases n,
{
    if n == 0 {
        Seq::empty()
    } else {
        let before = spilled_parts(b, hashes, spilled, (n - 1) as nat);
        let rows = partition_rows(hashes, (n - 1) as u8);
        if rows.len() > 0 && spilled.contains((n - 1) as u8) {
            before.push(((n - 1) as u8, rows_of_block(b, rows)))
        } else {
            before
        }
    }
}

/// All rows of the blocks, block by block.
pub open spec fn all_rows(blocks: Seq<BlockView>, n: nat) -> Seq<(int, int)>
    decreases n,
{
    if n == 0 {
        Seq::empty()
    } else {
        all_rows(blocks, (n - 1) as nat) + Seq::new(blocks[n - 1].num_rows, |k: int| (n - 1, k))
    }
}

/// The blocks one after the other.
pub open spec fn concatenated(blocks: Seq<BlockView>) -> BlockView {
    gathered(blocks, all_rows(blocks, blocks.len()))
}

/// The blocks one after the other.
fn concat(blocks: &Vec<DataBlock>) -> (r: DataBlock)
    requires
        blocks@.len() >= 1,
        mergeable(block_views(blocks@)),
        all_rows(block_views(blocks@), blocks@.len()).len() <= usize::MAX,
    ensures
        r@ == concatenated(block_views(blocks@)),
        rows_ok(r@.columns, r@.num_rows),
{
    let ghost views = block_views(blocks@);
    let mut slices: Vec<(usize, usize, usize)> = Vec::new();
    let mut total: usize = 0;
    let mut i: usize = 0;
    while i < blocks.len()
        invariant
            i <= blocks@.len(),
            views == block_views(blocks@),
            views.len() == blocks@.len(),
            all_rows(views, views.len()).len() <= usize::MAX,
            total == all_rows(views, i as nat).len(),
            slices@.len() == i,
            expanded(slices@) == all_rows(views, i as nat),
            forall|j: int|
                #![trigger slices@[j]]
                0 <= j < i ==> slices@[j].0 < views.len() && slices@[j].1 + slices@[j].2
                    <= views[slices@[j].0 as int].num_rows,
        decreases blocks.len() - i,
    {
        let ghost before = slices@;
        let n: usize = blocks[i].num_rows();
        proof {
            assert(views[i as int] == blocks@[i as int]@);
            lemma_all_rows_grow(views, (i + 1) as nat, views.len());
        }
        slices.push((i, 0, n));
        total = total + n;
        proof {
            assert(slices@.drop_last() =~= before);
            assert(expanded(slices@) =~= all_rows(views, (i + 1) as nat));
        }
        i += 1;
    }
    let r = take_by_slices_from_blocks(blocks, &slices, total);
    proof {
        assert forall|c: int| 0 <= c < r@.columns.len() implies entry_rows_ok(
            #[trigger] r@.columns[c],
            r@.num_rows,
        ) by {}
    }
    r
}

proof fn lemma_all_rows_grow(blocks: Seq<BlockView>, a: nat, b: nat)
    requires
        a <= b,
    ensures
        all_rows(blocks, a).len() <= all_rows(blocks, b).len(),
    decreases b,
{
    if a < b {
        lemma_all_rows_grow(blocks, a, (b - 1) as nat);
    }
}

/// The bytes of blocks.
pub open spec fn blocks_size(blocks: Seq<BlockView>) -> nat
    decreases blocks.len(),
{
    if blocks.len() == 0 {
        0
    } else {
        blocks_size(blocks.drop_last()) + sizes_total(blocks.last().columns)
    }
}

proof fn lemma_blocks_size_prefix(blocks: Seq<BlockView>, n: int)
    requires
        0 <= n <= blocks.len(),
    ensures
        blocks_size(blocks.take(n)) <= blocks_size(blocks),
    decreases blocks.len() - n,
{
    if n < blocks.len() {
        lemma_blocks_size_prefix(blocks, n + 1);
        assert(blocks.take(n + 1).drop_last() =~= blocks.take(n));
    } else {
        assert(blocks.take(n) =~= blocks);
    }
}

fn total_size(blocks: &Vec<DataBlock>) -> (r: usize)
    requires
        blocks_size(block_views(blocks@)) <= usize::MAX,
    ensures
        r == blocks_size(block_views(blocks@)),
{
    let ghost views = block_views(blocks@);
    let mut total: usize = 0;
    let mut i: usize = 0;
    assert(views.take(0) =~= Seq::<BlockView>::empty());
    while i < blocks.len()
        invariant
            i <= blocks@.len(),
            views == block_views(blocks@),
            blocks_size(views) <= usize::MAX,
            total == blocks_size(views.take(i as int)),
        decreases blocks.len() - i,
    {
        proof {
            lemma_blocks_size_prefix(views, i + 1);
            assert(views.take(i + 1).drop_last() =~= views.take(i as int));
            assert(views.take(i + 1).last() == blocks@[i as int]@);
        }
        total = total + blocks[i].memory_size();
        i += 1;
    }
    assert(views.take(i as int) =~= views);
    total
}

impl BuildSpillState {
    pub fn create() -> (r: BuildSpillState)
        ensures
            r.spill_memory_threshold == 1024,
            r.spiller.input_data@.len() == 0,
            r.spiller.partition_set@.len() == 0,
            r.spiller.partitions@.len() == 0,
            r.spiller.spilled_partition_set@ == Set::<u8>::empty(),
    {
        BuildSpillState {
            spill_memory_threshold: 1024,
            spiller: Spiller {
                input_data: Vec::new(),
                partition_set: Vec::new(),
                partitions: Vec::new(),
                spilled_partition_set: HashSet::new(),
            },
        }
    }

    /// Spreads the rows of the input data over the partitions. `hashes` holds the hash of each
    /// row of the input data, block by block.
    pub fn spill(&mut self, hashes: &Vec<u64>)
        requires
            old(self).spiller.input_data@.len() >= 1,
            mergeable(block_views(old(self).spiller.input_data@)),
            all_rows(
                block_views(old(self).spiller.input_data@),
                old(self).spiller.input_data@.len(),
            ).len() == hashes@.len(),
        ensures
            ({
                let filled = filled_partitions(
                    concatenated(block_views(old(self).spiller.input_data@)),
                    hashes@,
                    NUM_PARTITIONS as nat,
                );
                &&& partition_views(final(self).spiller.partitions@) == partition_views(
                    old(self).spiller.partitions@,
                ) + filled
                &&& final(self).spiller.partition_set@ == old(self).spiller.partition_set@ + filled.map_values(
                    |p: (u8, BlockView)| p.0,
                )
            }),
            final(self).spiller.input_data@ == old(self).spiller.input_data@,
            final(self).spiller.spilled_partition_set@ == old(self).spiller.spilled_partition_set@,
            final(self).spill_memory_threshold == old(self).spill_memory_threshold,
    {
        assert(hashes@.len() == hashes.len());
        let block = concat(&self.spiller.input_data);
        let rows = partition(hashes);
        let ghost b = block@;
        let ghost partitions0 = partition_views(self.spiller.partitions@);
        let ghost set0 = self.spiller.partition_set@;
        let mut p: usize = 0;
        proof {
            assert(partitions0 + filled_partitions(b, hashes@, 0) =~= partitions0);
            assert(set0 + filled_partitions(b, hashes@, 0).map_values(|p: (u8, BlockView)| p.0) =~= set0);
        }
        while p < NUM_PARTITIONS
            invariant
                p <= NUM_PARTITIONS,
                b == block@,
                rows_ok(b.columns, b.num_rows),
                b.num_rows == hashes@.len(),
                rows@.len() == NUM_PARTITIONS,
                forall|q: u8| q < NUM_PARTITIONS ==> row_numbers((#[trigger] rows@[q as int])@) == partition_rows(hashes@, q),
                partition_views(self.spiller.partitions@) == partitions0 + filled_partitions(b, hashes@, p as nat),
                self.spiller.partition_set@ == set0 + filled_partitions(b, hashes@, p as nat).map_values(
                    |p: (u8, BlockView)| p.0,
                ),
                self.spiller.input_data@ == old(self).spiller.input_data@,
                self.spiller.spilled_partition_set@ == old(self).spiller.spilled_partition_set@,
                self.spill_memory_threshold == old(self).spill_memory_threshold,
            decreases NUM_PARTITIONS - p,
        {
            let id: u8 = p as u8;
            let ghost filled = filled_partitions(b, hashes@, p as nat);
            let ghost was = self.spiller.partitions@;
            assert(row_numbers(rows@[id as int]@) == partition_rows(hashes@, id));
            assert(row_numbers(rows@[id as int]@).len() == rows@[id as int]@.len());
            if rows[p].len() > 0 {
                proof {
                    lemma_numbers_below(hashes@.len(), |i: int| partition_of(hashes@[i]) == id);
                    assert forall|i: int| 0 <= i < rows@[id as int]@.len() implies (#[trigger] rows@[id as int]@[i])
                        < b.num_rows by {
                        assert(row_numbers(rows@[id as int]@)[i] == rows@[id as int]@[i]);
                    }
                }
                let part = take_rows(&block, &rows[p]);
                let ghost entry = (id, part@);
                self.spiller.partition_set.push(id);
                self.spiller.partitions.push((id, part));
                proof {
                    assert(partition_views(self.spiller.partitions@) =~= partition_views(was).push(entry));
                    assert(filled_partitions(b, hashes@, (p + 1) as nat) == filled.push(entry));
                    assert(partitions0 + filled.push(entry) =~= (partitions0 + filled).push(entry));
                    assert(filled.push(entry).map_values(|p: (u8, BlockView)| p.0) =~= filled.map_values(
                        |p: (u8, BlockView)| p.0,
                    ).push(id));
                    assert(self.spiller.partition_set@ =~= set0 + filled.push(entry).map_values(
                        |p: (u8, BlockView)| p.0,
                    ));
                }
            }
            p += 1;
        }
    }

    /// Check if need to spill.
    /// Notes: even if input can fit into memory, but there exists one processor need to spill,
    /// then it needs to wait spill.
    pub fn check_need_spill(
        &self,
        input: &DataBlock,
        enable_spill: bool,
        spill_threshold: usize,
        is_all_spilled: bool,
        buffer: &Vec<DataBlock>,
        chunks: &Vec<DataBlock>,
    ) -> (r: bool)
        requires
            sizes_total(input@.columns) + blocks_size(block_views(buffer@)) + blocks_size(block_views(chunks@))
                <= usize::MAX,
        ensures
            r == (enable_spill && !is_all_spilled && self.spiller.input_data@.len() > 0 && sizes_total(input@.columns)
                + blocks_size(block_views(buffer@)) + blocks_size(block_views(chunks@)) > spill_threshold),
    {
        if !enable_spill || is_all_spilled {
            return false;
        }
        if self.spiller.input_data.len() == 0 {
            return false;
        }
        let total_bytes: usize = input.memory_size() + total_size(buffer) + total_size(chunks);
        total_bytes > spill_threshold
    }

    /// Splits input data into the rows of partitions that have been spilled, which are to be
    /// spilled as well, and the other rows. `hashes` holds the hash of each row.
    pub fn spill_input(&self, data_block: &DataBlock, hashes: &Vec<u64>) -> (r: (Vec<(u8, DataBlock)>, DataBlock))
        requires
            rows_ok(data_block@.columns, data_block@.num_rows),
            data_block@.num_rows == hashes@.len(),
        ensures
            partition_views(r.0@) == spilled_parts(
                data_block@,
                hashes@,
                self.spiller.spilled_partition_set@,
                NUM_PARTITIONS as nat,
            ),
            r.1@ == rows_of_block(data_block@, kept_rows(hashes@, self.spiller.spilled_partition_set@)),
    {
        broadcast use vstd::std_specs::hash::group_hash_axioms;

        let ghost spilled = self.spiller.spilled_partition_set@;
        let ghost test = |i: int| !spilled.contains(partition_of(hashes@[i]));
        let mut unspilled: Vec<usize> = Vec::new();
        let mut i: usize = 0;
        assert(row_numbers(unspilled@) =~= numbers_where(0, test));
        while i < hashes.len()
            invariant
                i <= hashes@.len(),
                spilled == self.spiller.spilled_partition_set@,
                test == (|i: int| !spilled.contains(partition_of(hashes@[i]))),
                row_numbers(unspilled@) == numbers_where(i as nat, test),
            decreases hashes.len() - i,
        {
            let ghost before = unspilled@;
            if !self.spiller.spilled_partition_set.contains(&partition_id(hashes[i])) {
                unspilled.push(i);
                assert(row_numbers(unspilled@) =~= row_numbers(before).push(i as int));
            }
            i += 1;
        }
        let rows = partition(hashes);
        let mut spill: Vec<(u8, DataBlock)> = Vec::new();
        let ghost b = data_block@;
        let mut p: usize = 0;
        assert(partition_views(spill@) =~= spilled_parts(b, hashes@, spilled, 0));
        while p < NUM_PARTITIONS
            invariant
                p <= NUM_PARTITIONS,
                b == data_block@,
                rows_ok(b.columns, b.num_rows),
                b.num_rows == hashes@.len(),
                spilled == self.spiller.spilled_partition_set@,
                rows@.len() == NUM_PARTITIONS,
                forall|q: u8| q < NUM_PARTITIONS ==> row_numbers((#[trigger] rows@[q as int])@) == partition_rows(hashes@, q),
                partition_views(spill@) == spilled_parts(b, hashes@, spilled, p as nat),
            decreases NUM_PARTITIONS - p,
        {
            let id: u8 = p as u8;
            let ghost was = spill@;
            assert(row_numbers(rows@[id as int]@) == partition_rows(hashes@, id));
            assert(row_numbers(rows@[id as int]@).len() == rows@[id as int]@.len());
            if rows[p].len() > 0 && self.spiller.spilled_partition_set.contains(&id) {
                proof {
                    lemma_numbers_below(hashes@.len(), |i: int| partition_of(hashes@[i]) == id);
                    assert forall|i: int| 0 <= i < rows@[id as int]@.len() implies (#[trigger] rows@[id as int]@[i])
                        < b.num_rows by {
                        assert(row_numbers(rows@[id as int]@)[i] == rows@[id as int]@[i]);
                    }
                }
                let part = take_rows(data_block, &rows[p]);
                let ghost entry = (id, part@);
                spill.push((id, part));
                assert(partition_views(spill@) =~= partition_views(was).push(entry));
            }
            p += 1;
        }
        proof {
            lemma_numbers_below(hashes@.len(), test);
            assert forall|i: int| 0 <= i < unspilled@.len() implies (#[trigger] unspilled@[i]) < b.num_rows by {
                assert(row_numbers(unspilled@)[i] == unspilled@[i]);
            }
        }
        let rest = take_rows(data_block, &unspilled);
        (spill, rest)
    }

    /// Buffer the input data for the join build processor
    /// It will be spilled when the memory usage exceeds threshold.
    /// If data isn't in partition set, it'll be used to build hash table.
    pub fn buffer_data(&mut self, input: DataBlock)
        ensures
            final(self).spiller.input_data@ == old(self).spiller.input_data@.push(input),
            final(self).spiller.partition_set@ == old(self).spiller.partition_set@,
            final(self).spiller.partitions@ == old(self).spiller.partitions@,
            final(self).spiller.spilled_partition_set@ == old(self).spiller.spilled_partition_set@,
            final(self).spill_memory_threshold == old(self).spill_memory_threshold,
    {
        self.spiller.input_data.push(input);
    }
}

/// Every row is in exactly one partition.
pub proof fn every_row_is_in_one_partition(hashes: Seq<u64>, row: int)
    requires
        0 <= row < hashes.len(),
    ensures
        partition_of(hashes[row]) < NUM_PARTITIONS,
        forall|p: u8| #[trigger] partition_rows(hashes, p).contains(row) <==> p == partition_of(hashes[row]),
{
    lemma_partition_range(hashes[row]);
    assert forall|p: u8| #[trigger] partition_rows(hashes, p).contains(row) <==> p == partition_of(hashes[row]) by {
        lemma_numbers_contain(hashes.len(), |i: int| partition_of(hashes[i]) == p, row);
    }
}

/// Of input data, each row is kept or goes to a spilled partition, and no row does both.
pub proof fn every_row_is_kept_or_spilled(hashes: Seq<u64>, spilled: Set<u8>, row: int)
    requires
        0 <= row < hashes.len(),
    ensures
        kept_rows(hashes, spilled).contains(row) <==> !(exists|p: u8|
            spilled.contains(p) && #[trigger] partition_rows(hashes, p).contains(row)),
{
    every_row_is_in_one_partition(hashes, row);
    lemma_numbers_contain(hashes.len(), |i: int| !spilled.contains(partition_of(hashes[i])), row);
    let own = partition_of(hashes[row]);
    assert(partition_rows(hashes, own).contains(row));
}

/// These are the numbers below `n` that pass a test: all of them, each once, and from the least to
/// the greatest.
pub open spec fn are_the_places(places: Seq<int>, n: int, test: spec_fn(int) -> bool) -> bool {
    &&& forall|j: int| 0 <= j < places.len() ==> 0 <= #[trigger] places[j] < n && test(places[j])
    &&& forall|i: int, j: int| #![trigger places[i], places[j]] 0 <= i < j < places.len() ==> places[i] < places[j]
    &&& forall|k: int| 0 <= k < n && #[trigger] test(k) ==> places.contains(k)
}

/// The numbers that pass a test are found in order, without a gap.
pub proof fn numbers_are_the_places(n: nat, test: spec_fn(int) -> bool)
    ensures
        are_the_places(numbers_where(n, test), n as int, test),
    decreases n,
{
    let all = numbers_where(n, test);
    lemma_numbers_below(n, test);
    if n > 0 {
        let before = numbers_where((n - 1) as nat, test);
        numbers_are_the_places((n - 1) as nat, test);
        lemma_numbers_below((n - 1) as nat, test);
        assert forall|j: int| 0 <= j < all.len() implies 0 <= #[trigger] all[j] < n && test(all[j]) by {
            if j < before.len() {
                assert(all[j] == before[j]);
            }
        }
        assert forall|i: int, j: int| #![trigger all[i], all[j]] 0 <= i < j < all.len() implies all[i] < all[j] by {
            assert(all[i] == before[i]);
            if j < before.len() {
                assert(all[j] == before[j]);
            }
        }
    }
    assert forall|k: int| 0 <= k < n && #[trigger] test(k) implies all.contains(k) by {
        lemma_numbers_contain(n, test, k);
    }
}

/// Taking rows of a block takes them whole and in the order in which they are asked for.
pub proof fn taken_rows_are_whole(b: BlockView, rows: Seq<int>)
    ensures
        block_rows(rows_of_block(b, rows)).len() == rows.len(),
        forall|j: int|
            0 <= j < rows.len() && 0 <= rows[j] < b.num_rows ==> #[trigger] block_rows(rows_of_block(b, rows))[j]
                == block_rows(b)[rows[j]],
{
    let taken = rows_of_block(b, rows);
    assert forall|j: int| 0 <= j < rows.len() && 0 <= rows[j] < b.num_rows implies #[trigger] block_rows(taken)[j]
        == block_rows(b)[rows[j]] by {
        assert(block_rows(taken)[j] =~= block_rows(b)[rows[j]]);
    }
}

/// A partition is named by the remainder of the hash by eight.
pub proof fn partitions_go_by_the_low_bits(hash: u64)
    ensures
        partition_of(hash) as int == hash as int % 8,
        partition_of(hash) < NUM_PARTITIONS,
{
    assert((hash as u8) & 7 == hash % 8) by (bit_vector);
}

/// What a spill makes of a block: every partition that it makes holds, in their order and whole,
/// the rows whose hashes have the partition's number as their remainder, and at least one; a
/// partition that it does not make has no rows; and the partitions come in the order of their
/// numbers.
pub proof fn a_spill_spreads_the_rows(b: BlockView, hashes: Seq<u64>, n: nat)
    requires
        b.num_rows == hashes.len(),
        n <= NUM_PARTITIONS,
    ensures
        ({
            let filled = filled_partitions(b, hashes, n);
            &&& forall|i: int, j: int| #![trigger filled[i], filled[j]] 0 <= i < j < filled.len() ==> filled[i].0 < filled[j].0
            &&& forall|i: int|
                0 <= i < filled.len() ==> holds_partition(b, hashes, #[trigger] filled[i]) && filled[i].0 < n
            &&& forall|row: int|
                #![trigger hashes[row]]
                0 <= row < hashes.len() && hashes[row] as int % 8 < n ==> exists|i: int|
                    0 <= i < filled.len() && (#[trigger] filled[i]).0 == hashes[row] as int % 8
        }),
    decreases n,
{
    let filled = filled_partitions(b, hashes, n);
    if n > 0 {
        let p = (n - 1) as u8;
        let before = filled_partitions(b, hashes, (n - 1) as nat);
        a_spill_spreads_the_rows(b, hashes, (n - 1) as nat);
        let test = |i: int| partition_of(hashes[i]) == p;
        let rows = partition_rows(hashes, p);
        assert(rows == numbers_where(hashes.len(), test));
        numbers_are_the_places(hashes.len(), test);
        lemma_numbers_below(hashes.len(), test);
        if rows.len() > 0 {
            let entry = (p, rows_of_block(b, rows));
            taken_rows_are_whole(b, rows);
            let other = has_remainder(hashes, p);
            assert forall|i: int| 0 <= i < hashes.len() implies test(i) == #[trigger] other(i) by {
                partitions_go_by_the_low_bits(hashes[i]);
            }
            assert(are_the_places(rows, hashes.len() as int, other)) by {
                assert forall|j: int| 0 <= j < rows.len() implies 0 <= #[trigger] rows[j] < hashes.len() && other(rows[j]) by {
                    assert(test(rows[j]) == other(rows[j]));
                }
                assert forall|k: int| 0 <= k < hashes.len() && #[trigger] other(k) implies rows.contains(k) by {
                    assert(test(k));
                }
            }
            assert forall|j: int| 0 <= j < rows.len() implies #[trigger] block_rows(entry.1)[j] == block_rows(b)[rows[j]] by {
                assert(0 <= rows[j] < hashes.len());
            }
            assert(block_rows(entry.1).len() == rows.len());
            assert(are_the_places(rows, hashes.len() as int, has_remainder(hashes, entry.0)));
            assert(holds_partition(b, hashes, entry));
            assert(filled == before.push(entry));
        }
        assert forall|i: int| 0 <= i < filled.len() implies holds_partition(b, hashes, #[trigger] filled[i])
            && filled[i].0 < n by {
            if i < before.len() {
                assert(filled[i] == before[i]);
            }
        }
        assert forall|i: int, j: int| #![trigger filled[i], filled[j]] 0 <= i < j < filled.len() implies filled[i].0
            < filled[j].0 by {
            assert(filled[i] == before[i]);
            if j < before.len() {
                assert(filled[j] == before[j]);
            }
        }
        assert forall|row: int| #![trigger hashes[row]] 0 <= row < hashes.len() && hashes[row] as int % 8 < n implies exists|
            i: int,
        | 0 <= i < filled.len() && (#[trigger] filled[i]).0 == hashes[row] as int % 8 by {
            partitions_go_by_the_low_bits(hashes[row]);
            if hashes[row] as int % 8 < n - 1 {
                let i = choose|i: int| 0 <= i < before.len() && (#[trigger] before[i]).0 == hashes[row] as int % 8;
                assert(filled[i] == before[i]);
            } else {
                assert(test(row));
                assert(rows.contains(row));
                assert(filled[before.len() as int].0 == p);
            }
        }
    }
}

/// Whether the hash of a row has a remainder by eight.
pub open spec fn has_remainder(hashes: Seq<u64>, remainder: u8) -> spec_fn(int) -> bool {
    |i: int| hashes[i] as int % 8 == remainder
}

/// A partition holds the rows of a block whose hashes have its number as their remainder by eight.
pub open spec fn holds_partition(b: BlockView, hashes: Seq<u64>, partition: (u8, BlockView)) -> bool {
    exists|rows: Seq<int>|
        {
            &&& #[trigger] are_the_places(rows, hashes.len() as int, has_remainder(hashes, partition.0))
            &&& rows.len() > 0
            &&& block_rows(partition.1).len() == rows.len()
            &&& forall|j: int| 0 <= j < rows.len() ==> #[trigger] block_rows(partition.1)[j] == block_rows(b)[rows[j]]
        }
}

/// Blocks that are put together keep their rows, in order.
pub proof fn concatenation_keeps_the_rows(blocks: Seq<BlockView>)
    requires
        blocks.len() >= 1,
        mergeable(blocks),
    ensures
        block_rows(concatenated(blocks)) == table_rows(blocks),
{
    lemma_gathered_in_turn(blocks);
}

/// Of input data, the rows of partitions that have been spilled go to those partitions, as a spill
/// spreads them; the rows that are kept are the others, in their order.
pub proof fn spilled_partitions_get_their_rows(b: BlockView, hashes: Seq<u64>, spilled: Set<u8>, n: nat)
    requires
        b.num_rows == hashes.len(),
        n <= NUM_PARTITIONS,
    ensures
        spilled_parts(b, hashes, spilled, n) == filled_partitions(b, hashes, n).filter(
            |p: (u8, BlockView)| spilled.contains(p.0),
        ),
    decreases n,
{
    reveal(Seq::filter);
    if n > 0 {
        spilled_partitions_get_their_rows(b, hashes, spilled, (n - 1) as nat);
        let filled = filled_partitions(b, hashes, n);
        let before = filled_partitions(b, hashes, (n - 1) as nat);
        if partition_rows(hashes, (n - 1) as u8).len() > 0 {
            assert(filled.drop_last() =~= before);
        }
    }
}

/// The rows of input data that are kept are those whose partitions have not been spilled.
pub proof fn rows_of_other_partitions_are_kept(hashes: Seq<u64>, spilled: Set<u8>)
    ensures
        are_the_places(kept_rows(hashes, spilled), hashes.len() as int, stays(hashes, spilled)),
{
    let test = |i: int| !spilled.contains(partition_of(hashes[i]));
    let rows = kept_rows(hashes, spilled);
    assert(rows == numbers_where(hashes.len(), test));
    numbers_are_the_places(hashes.len(), test);
    let other = stays(hashes, spilled);
    assert forall|i: int| 0 <= i < hashes.len() implies test(i) == #[trigger] other(i) by {
        partitions_go_by_the_low_bits(hashes[i]);
    }
    assert forall|j: int| 0 <= j < rows.len() implies 0 <= #[trigger] rows[j] < hashes.len() && other(rows[j]) by {
        assert(test(rows[j]) == other(rows[j]));
    }
    assert forall|k: int| 0 <= k < hashes.len() && #[trigger] other(k) implies rows.contains(k) by {
        assert(test(k));
    }
}

/// Whether the partition of a row, which is the remainder of its hash by eight, is not spilled.
pub open spec fn stays(hashes: Seq<u64>, spilled: Set<u8>) -> spec_fn(int) -> bool {
    |i: int| !spilled.contains((hashes[i] as int % 8) as u8)
}

/// The size of blocks is that of all their columns.
pub proof fn sizes_of_blocks_are_added(blocks: Seq<BlockView>, more: Seq<BlockView>)
    ensures
        blocks_size(blocks + more) == blocks_size(blocks) + blocks_size(more),
        blocks.len() == 1 ==> blocks_size(blocks) == sizes_total(blocks[0].columns),
        blocks_size(Seq::empty()) == 0,
    decreases more.len(),
{
    if blocks.len() == 1 {
        assert(blocks.drop_last() =~= Seq::<BlockView>::empty());
        assert(blocks_size(blocks.drop_last()) == 0);
    }
    if more.len() > 0 {
        sizes_of_blocks_are_added(blocks, more.drop_last());
        assert((blocks + more).drop_last() =~= blocks + more.drop_last());
        assert((blocks + more).last() == more.last());
    } else {
        assert(blocks + more =~= blocks);
    }
}

}
