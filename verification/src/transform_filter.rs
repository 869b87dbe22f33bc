//! Blocks on their way through a filter.

use std::collections::HashSet;
use std::collections::VecDeque;

use vstd::prelude::*;

use crate::block::block_views;
use crate::block::cuts_and_rest;
use crate::block::kept;
use crate::block::rows_ok;
use crate::block::BlockView;
use crate::block::DataBlock;

verus! {

/// Filter the input blocks, in pieces of at most `max_block_size` rows.
#[derive(Debug)]
pub struct TransformFilter {
    pub projections: HashSet<usize>,
    pub output_data_blocks: VecDeque<DataBlock>,
    pub max_block_size: usize,
}

impl TransformFilter {
    pub fn create(projections: HashSet<usize>, max_block_size: usize) -> (r: TransformFilter)
        ensures
            r.projections == projections,
            r.max_block_size == max_block_size,
            r.output_data_blocks@ == Seq::<DataBlock>::empty(),
    {
        TransformFilter { projections, output_data_blocks: VecDeque::new(), max_block_size }
    }

    /// Takes in a block. One that comes from an aggregating index, with `num_evals` columns that
    /// are evaluated already, goes out as it is projected; of any other the pieces are handed out
    /// to be filtered.
    pub fn consume(&mut self, input: DataBlock, num_evals: Option<usize>) -> (r: Vec<DataBlock>)
        requires
            old(self).max_block_size > 0,
            rows_ok(input@.columns, input@.num_rows),
            num_evals matches Some(n) ==> n <= input@.columns.len(),
        ensures
            final(self).projections == old(self).projections,
            final(self).max_block_size == old(self).max_block_size,
            match num_evals {
                Some(n) => {
                    &&& r@.len() == 0
                    &&& block_views(final(self).output_data_blocks@) == block_views(old(self).output_data_blocks@).push(
                        BlockView {
                            columns: kept(
                                input@.columns,
                                |i: int|
                                    old(self).projections@.contains(i as usize) || i >= input@.columns.len() - n,
                            ),
                            ..input@
                        },
                    )
                },
                None => {
                    &&& block_views(r@) == cuts_and_rest(input@, old(self).max_block_size as int)
                    &&& final(self).output_data_blocks@ == old(self).output_data_blocks@
                },
            },
    {
        match num_evals {
            Some(n) => {
                // It's from aggregating index.
                let ghost before = self.output_data_blocks@;
                let block = input.project_with_agg_index(&self.projections, n);
                self.output_data_blocks.push_back(block);
                assert(block_views(self.output_data_blocks@) =~= block_views(before).push(block@));
                Vec::new()
            },
            None => input.split_by_rows_no_tail(self.max_block_size),
        }
    }

    /// Takes in a piece as the filter left it; one without rows is dropped.
    pub fn add_filtered(&mut self, data_block: DataBlock)
        ensures
            final(self).projections == old(self).projections,
            final(self).max_block_size == old(self).max_block_size,
            final(self).output_data_blocks@ == (if data_block@.num_rows > 0 {
                old(self).output_data_blocks@.push(data_block)
            } else {
                old(self).output_data_blocks@
            }),
    {
        if data_block.num_rows() > 0 {
            self.output_data_blocks.push_back(data_block);
        }
    }

    /// Hands out what came in first.
    pub fn transform(&mut self) -> (r: Option<DataBlock>)
        ensures
            final(self).projections == old(self).projections,
            final(self).max_block_size == old(self).max_block_size,
            if old(self).output_data_blocks@.len() == 0 {
                r is None && final(self).output_data_blocks@ == old(self).output_data_blocks@
            } else {
                r == Some(old(self).output_data_blocks@[0]) && final(self).output_data_blocks@ == old(
                    self
                ).output_data_blocks@.skip(1)
            },
    {
        let r = self.output_data_blocks.pop_front();
        proof {
            if old(self).output_data_blocks@.len() > 0 {
                assert(self.output_data_blocks@ =~= old(self).output_data_blocks@.skip(1));
            }
        }
        r
    }
}

}
