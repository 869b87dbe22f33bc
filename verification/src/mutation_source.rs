//! How the blocks of a table are deleted from and updated.
//!
//! The source goes through states. What is read, decoded and evaluated between them is handed to
//! it.

use vstd::prelude::*;

use crate::block::entry_rows_ok;
use crate::block::full_column;
use crate::block::rows_ok;
use crate::block::BlockEntry;
use crate::block::BlockView;
use crate::block::DataBlock;
use crate::block::EntryView;
use crate::block::Value;
use crate::block::ValueView;
use crate::build_spill::are_the_places;
use crate::build_spill::lemma_numbers_below;
use crate::build_spill::lemma_numbers_contain;
use crate::build_spill::numbers_are_the_places;
use crate::build_spill::numbers_where;
use crate::build_spill::row_numbers;
use crate::build_spill::rows_of_block;
use crate::build_spill::take_rows;
use crate::error::ErrorCode;
use crate::mutation_part::BlockMetaIndex;
use crate::mutation_part::DeletedSegment;
use crate::mutation_part::Mutation;
use crate::mutation_part::MutationPartInfo;
use crate::mutation_part::PartInfo;
use crate::read_partitions::FusePartInfo;
use crate::types::scalar_view;
use crate::types::Column;
use crate::types::ColumnView;
use crate::types::DataType;
use crate::types::Scalar;
use crate::types::ScalarView;
use crate::types::TypeView;

verus! {

#[derive(Clone, Copy, Debug, PartialEq, Eq, Structural)]
pub enum MutationAction {
    Deletion,
    Update,
}

/// How the clustering of a written block is found.
#[derive(Debug)]
pub enum ClusterStatsGenType<C> {
    Generally,
    WithOrigin(Option<C>),
}

impl<C: Copy> Clone for ClusterStatsGenType<C> {
    fn clone(&self) -> (r: Self)
        ensures
            r == *self,
    {
        *self
    }
}

impl<C: Copy> Copy for ClusterStatsGenType<C> {

}

/// What accompanies a block that goes out.
#[derive(Debug)]
pub enum MutationMeta<C> {
    SerializeBlock { index: BlockMetaIndex, stats_type: ClusterStatsGenType<C> },
    DeletedSegment(DeletedSegment),
    /// A block of a stream, with the location it comes from.
    Stream { index: BlockMetaIndex, stats_type: ClusterStatsGenType<C>, path: String },
}

/// What a filter says of the rows of a block.
#[derive(Debug)]
pub enum Predicates {
    Scalar(bool),
    Column(Vec<bool>),
}

/// Where the source stands; `D` is data as it was read.
#[derive(Debug)]
pub enum State<C, D> {
    Init,
    ReadData(PartInfo<C>),
    FilterData(PartInfo<C>, D),
    ReadRemain { part: PartInfo<C>, data_block: DataBlock, filter: Option<Vec<bool>> },
    MergeRemain { part: PartInfo<C>, merged_io_read_result: D, data_block: DataBlock, filter: Option<Vec<bool>> },
    PerformOperator(DataBlock, String),
    Output(DataBlock, Option<MutationMeta<C>>),
}

#[derive(Debug)]
pub struct MutationSource<C, D> {
    pub state: State<C, D>,
    pub has_filter: bool,
    pub has_remain_reader: bool,
    pub action: MutationAction,
    pub query_row_id_col: bool,
    pub update_stream_columns: bool,
    pub index: BlockMetaIndex,
    pub stats_type: ClusterStatsGenType<C>,
}

/// What is to be had from the input.
#[derive(Debug)]
pub enum InputState<C> {
    Data(Result<PartInfo<C>, ErrorCode>),
    Finished,
    Nothing,
}

#[derive(Clone, Copy, Debug, PartialEq, Eq, Structural)]
pub enum Event {
    Finished,
    NeedConsume,
    NeedData,
    Async,
    Sync,
}

/// What is done to the ports.
#[derive(Debug)]
pub enum PortAction<C> {
    Leave,
    FinishInput,
    FinishOutput,
    SetNotNeedData,
    SetNeedData,
    Push(DataBlock, Option<MutationMeta<C>>),
}

/// What is done between two states in the foreground.
#[derive(Debug)]
pub enum ProcessAction<C, D> {
    /// Decode what was read of the part, and evaluate the filter where there is one.
    Decode { part: PartInfo<C>, data: D },
    /// Decode what was read of the other columns of the block at this location.
    DecodeRemain { part: PartInfo<C>, data: D, data_block: DataBlock, filter: Option<Vec<bool>> },
    /// Run the operators.
    Execute { data_block: DataBlock, path: String },
}

/// What is done between two states in the background.
#[derive(Debug)]
pub enum AsyncAction<C> {
    /// Nothing is to be read; the rows are the progress.
    Done { rows: u64 },
    /// Read the columns of the part.
    Read(PartInfo<C>),
    /// Read the other columns of the part.
    ReadRemain { part: PartInfo<C>, data_block: DataBlock, filter: Option<Vec<bool>> },
}

pub open spec fn is_internal<T>(r: Result<T, ErrorCode>, message: Seq<char>) -> bool {
    r matches Err(ErrorCode::Internal(m)) && m@ == message
}

/// How many rows a filter lets through.
pub open spec fn passing(bits: Seq<bool>) -> nat
    decreases bits.len(),
{
    if bits.len() == 0 {
        0
    } else {
        passing(bits.drop_last()) + if bits.last() {
            1nat
        } else {
            0
        }
    }
}

/// How many of the rows of a block a filter affects.
pub open spec fn affected(p: Predicates, num_rows: nat) -> nat {
    match p {
        Predicates::Scalar(v) => if v {
            num_rows
        } else {
            0
        },
        Predicates::Column(bits) => passing(bits@),
    }
}

/// The numbers of the bits that are set.
pub open spec fn set_bits(bits: Seq<bool>) -> Seq<int> {
    numbers_where(bits.len(), |i: int| bits[i])
}

/// The rows of a block where a bit is set.
pub open spec fn filtered(b: BlockView, bits: Seq<bool>) -> BlockView {
    rows_of_block(b, set_bits(bits))
}

pub open spec fn inverted(bits: Seq<bool>) -> Seq<bool> {
    bits.map_values(|b: bool| !b)
}

pub open spec fn boolean_rows(bits: Seq<bool>) -> Seq<ScalarView> {
    bits.map_values(|b: bool| ScalarView::Boolean(b))
}

/// The answer of a filter as a column of a block.
pub open spec fn predicate_entry(p: Predicates) -> EntryView {
    EntryView {
        data_type: TypeView::Boolean,
        value: match p {
            Predicates::Scalar(v) => ValueView::Scalar(ScalarView::Boolean(v)),
            Predicates::Column(bits) => ValueView::Column(
                ColumnView { data_type: TypeView::Boolean, rows: boolean_rows(bits@) },
            ),
        },
    }
}

/// The block without its last column.
pub open spec fn without_last(b: BlockView) -> BlockView {
    BlockView { columns: b.columns.drop_last(), ..b }
}

/// The rows of a block where a bit is set.
pub fn filter_with_bitmap(block: &DataBlock, bits: &Vec<bool>) -> (r: DataBlock)
    requires
        rows_ok(block@.columns, block@.num_rows),
        bits@.len() == block@.num_rows,
    ensures
        r@ == filtered(block@, bits@),
{
    let mut rows: Vec<usize> = Vec::new();
    let ghost test = |i: int| bits@[i];
    let mut i: usize = 0;
    assert(row_numbers(rows@) =~= Seq::<int>::empty());
    while i < bits.len()
        invariant
            i <= bits@.len(),
            test == (|i: int| bits@[i]),
            row_numbers(rows@) == numbers_where(i as nat, test),
        decreases bits.len() - i,
    {
        let ghost before = rows@;
        if bits[i] {
            rows.push(i);
            assert(row_numbers(rows@) =~= row_numbers(before).push(i as int));
        }
        i += 1;
    }
    proof {
        lemma_numbers_below(bits@.len(), test);
        assert forall|j: int| 0 <= j < rows@.len() implies (#[trigger] rows@[j]) < block@.num_rows by {
            assert(row_numbers(rows@)[j] == rows@[j]);
        }
    }
    take_rows(block, &rows)
}

fn invert(bits: &Vec<bool>) -> (r: Vec<bool>)
    ensures
        r@ == inverted(bits@),
{
    let mut r: Vec<bool> = Vec::new();
    let mut i: usize = 0;
    while i < bits.len()
        invariant
            i <= bits@.len(),
            r@ == inverted(bits@).take(i as int),
        decreases bits.len() - i,
    {
        r.push(!bits[i]);
        assert(inverted(bits@).take(i + 1) =~= inverted(bits@).take(i as int).push(!bits@[i as int]));
        i += 1;
    }
    assert(inverted(bits@).take(i as int) =~= inverted(bits@));
    r
}

fn count_passing(bits: &Vec<bool>) -> (r: usize)
    ensures
        r == passing(bits@),
{
    let mut r: usize = 0;
    let mut i: usize = 0;
    assert(bits@.take(0) =~= Seq::<bool>::empty());
    while i < bits.len()
        invariant
            i <= bits@.len(),
            r == passing(bits@.take(i as int)),
            r <= i,
        decreases bits.len() - i,
    {
        assert(bits@.take(i + 1).drop_last() =~= bits@.take(i as int));
        if bits[i] {
            r += 1;
        }
        i += 1;
    }
    assert(bits@.take(i as int) =~= bits@);
    r
}

fn predicate_value(p: Predicates) -> (r: Value)
    ensures
        r@ == predicate_entry(p).value,
{
    match p {
        Predicates::Scalar(v) => Value::Scalar(Scalar::Boolean(v)),
        Predicates::Column(bits) => {
            let mut rows: Vec<Scalar> = Vec::new();
            let mut i: usize = 0;
            while i < bits.len()
                invariant
                    i <= bits@.len(),
                    rows@.len() == i,
                    forall|j: int| 0 <= j < i ==> scalar_view(#[trigger] rows@[j]) == ScalarView::Boolean(bits@[j]),
                decreases bits.len() - i,
            {
                rows.push(Scalar::Boolean(bits[i]));
                i += 1;
            }
            let column = Column { data_type: DataType::Boolean, rows };
            assert(column@.rows =~= boolean_rows(bits@));
            Value::Column(column)
        },
    }
}

impl FusePartInfo {
    pub fn from_part<C>(info: &PartInfo<C>) -> (r: Result<&FusePartInfo, ErrorCode>)
        ensures
            match *info {
                PartInfo::Fuse(p) => r == Ok::<&FusePartInfo, ErrorCode>(&p),
                _ => is_internal(r, "Cannot downcast from PartInfo to FusePartInfo."@),
            },
    {
        match info {
            PartInfo::Fuse(part) => Ok(part),
            _ => Err(ErrorCode::Internal("Cannot downcast from PartInfo to FusePartInfo.".to_owned())),
        }
    }
}

impl<C: Copy, D> MutationSource<C, D> {
    pub fn try_create(
        action: MutationAction,
        has_filter: bool,
        has_remain_reader: bool,
        query_row_id_col: bool,
        update_stream_columns: bool,
    ) -> (r: MutationSource<C, D>)
        ensures
            r == (MutationSource {
                state: State::<C, D>::Init,
                has_filter,
                has_remain_reader,
                action,
                query_row_id_col,
                update_stream_columns,
                index: BlockMetaIndex { segment_idx: 0, block_idx: 0 },
                stats_type: ClusterStatsGenType::<C>::Generally,
            }),
    {
        MutationSource {
            state: State::Init,
            has_filter,
            has_remain_reader,
            action,
            query_row_id_col,
            update_stream_columns,
            index: BlockMetaIndex { segment_idx: 0, block_idx: 0 },
            stats_type: ClusterStatsGenType::Generally,
        }
    }

    pub fn name(&self) -> (r: String)
        ensures
            r@ == "MutationSource"@,
    {
        "MutationSource".to_owned()
    }

    /// Leaves the source at the start and hands out where it stood.
    fn take_state(&mut self) -> (r: State<C, D>)
        ensures
            r == old(self).state,
            *final(self) == (MutationSource { state: State::Init, ..*old(self) }),
    {
        let mut state = State::Init;
        std::mem::swap(&mut self.state, &mut state);
        state
    }

    /// What the source does next.
    pub fn event(&mut self, output_finished: bool, can_push: bool, input: InputState<C>) -> (r: Result<
        (Event, PortAction<C>),
        ErrorCode,
    >)
        ensures
            ({
                let before = *old(self);
                let started = MutationSource { state: State::<C, D>::Init, ..before };
                if output_finished {
                    *final(self) == before && r == Ok::<(Event, PortAction<C>), ErrorCode>(
                        (Event::Finished, PortAction::FinishInput),
                    )
                } else if !can_push {
                    *final(self) == before && r == Ok::<(Event, PortAction<C>), ErrorCode>(
                        (Event::NeedConsume, PortAction::SetNotNeedData),
                    )
                } else {
                    match before.state {
                        State::Init => match input {
                            InputState::Data(Ok(part)) => *final(self) == (MutationSource {
                                state: State::<C, D>::ReadData(part),
                                ..before
                            }) && r == Ok::<(Event, PortAction<C>), ErrorCode>((Event::Async, PortAction::Leave)),
                            InputState::Data(Err(e)) => *final(self) == started && r == Err::<
                                (Event, PortAction<C>),
                                ErrorCode,
                            >(e),
                            InputState::Finished => *final(self) == started && r == Ok::<
                                (Event, PortAction<C>),
                                ErrorCode,
                            >((Event::Finished, PortAction::FinishOutput)),
                            InputState::Nothing => *final(self) == started && r == Ok::<
                                (Event, PortAction<C>),
                                ErrorCode,
                            >((Event::NeedData, PortAction::SetNeedData)),
                        },
                        State::Output(block, meta) => *final(self) == started && r == Ok::<
                            (Event, PortAction<C>),
                            ErrorCode,
                        >((Event::NeedConsume, PortAction::Push(block, meta))),
                        State::ReadData(_) => *final(self) == started && r == Ok::<(Event, PortAction<C>), ErrorCode>(
                            (Event::Async, PortAction::Leave),
                        ),
                        State::ReadRemain { .. } => *final(self) == started && r == Ok::<
                            (Event, PortAction<C>),
                            ErrorCode,
                        >((Event::Async, PortAction::Leave)),
                        _ => *final(self) == started && r == Ok::<(Event, PortAction<C>), ErrorCode>(
                            (Event::Sync, PortAction::Leave),
                        ),
                    }
                }
            }),
    {
        if output_finished {
            return Ok((Event::Finished, PortAction::FinishInput));
        }
        if !can_push {
            return Ok((Event::NeedConsume, PortAction::SetNotNeedData));
        }
        match self.take_state() {
            State::Init => match input {
                InputState::Data(Ok(part)) => {
                    self.state = State::ReadData(part);
                    Ok((Event::Async, PortAction::Leave))
                },
                InputState::Data(Err(e)) => Err(e),
                InputState::Finished => Ok((Event::Finished, PortAction::FinishOutput)),
                InputState::Nothing => Ok((Event::NeedData, PortAction::SetNeedData)),
            },
            State::ReadData(_) => Ok((Event::Async, PortAction::Leave)),
            State::ReadRemain { .. } => Ok((Event::Async, PortAction::Leave)),
            State::FilterData(_, _) => Ok((Event::Sync, PortAction::Leave)),
            State::MergeRemain { .. } => Ok((Event::Sync, PortAction::Leave)),
            State::PerformOperator(_, _) => Ok((Event::Sync, PortAction::Leave)),
            State::Output(data_block, meta) => Ok((Event::NeedConsume, PortAction::Push(data_block, meta))),
        }
    }

    /// What is done in the foreground from where the source stands.
    pub fn process(&mut self) -> (r: Result<ProcessAction<C, D>, ErrorCode>)
        ensures
            *final(self) == (MutationSource { state: State::<C, D>::Init, ..*old(self) }),
            match old(self).state {
                State::FilterData(part, data) => r == Ok::<ProcessAction<C, D>, ErrorCode>(
                    ProcessAction::Decode { part, data },
                ),
                State::MergeRemain { part, merged_io_read_result, data_block, filter } => if !(part is Fuse) {
                    is_internal(r, "Cannot downcast from PartInfo to FusePartInfo."@)
                } else if !old(self).has_remain_reader {
                    is_internal(r, "It's a bug. Need remain reader"@)
                } else {
                    r == Ok::<ProcessAction<C, D>, ErrorCode>(
                        ProcessAction::DecodeRemain { part, data: merged_io_read_result, data_block, filter },
                    )
                },
                State::PerformOperator(data_block, path) => r == Ok::<ProcessAction<C, D>, ErrorCode>(
                    ProcessAction::Execute { data_block, path },
                ),
                _ => is_internal(r, "It's a bug."@),
            },
    {
        match self.take_state() {
            State::FilterData(part, data) => Ok(ProcessAction::Decode { part, data }),
            State::MergeRemain { part, merged_io_read_result, data_block, filter } => {
                match FusePartInfo::from_part(&part) {
                    Err(e) => return Err(e),
                    Ok(_) => {},
                }
                if !self.has_remain_reader {
                    return Err(ErrorCode::Internal("It's a bug. Need remain reader".to_owned()));
                }
                Ok(ProcessAction::DecodeRemain { part, data: merged_io_read_result, data_block, filter })
            },
            State::PerformOperator(data_block, path) => Ok(ProcessAction::Execute { data_block, path }),
            _ => Err(ErrorCode::Internal("It's a bug.".to_owned())),
        }
    }

    /// The block that the filter is evaluated on: with the ids of its rows where they are asked
    /// for.
    pub fn filter_input(&self, data_block: &mut DataBlock, row_id_col: BlockEntry)
        requires
            rows_ok(old(data_block)@.columns, old(data_block)@.num_rows),
            entry_rows_ok(row_id_col@, old(data_block)@.num_rows),
        ensures
            final(data_block)@ == (if self.has_filter && self.query_row_id_col {
                BlockView { columns: old(data_block)@.columns.push(row_id_col@), ..old(data_block)@ }
            } else {
                old(data_block)@
            }),
    {
        if self.has_filter && self.query_row_id_col {
            data_block.add_column(row_id_col);
        }
    }

    /// Goes on with a block that was decoded, and with what the filter says of it where there is
    /// one. Gives the number of rows that are mutated, where there is progress.
    pub fn filter_data(&mut self, part: PartInfo<C>, data_block: DataBlock, predicates: Option<Predicates>) -> (r:
        Result<Option<usize>, ErrorCode>)
        requires
            rows_ok(data_block@.columns, data_block@.num_rows),
            predicates is Some <==> old(self).has_filter,
            predicates matches Some(Predicates::Column(bits)) ==> bits@.len() == data_block@.num_rows,
            old(self).has_filter && old(self).query_row_id_col ==> data_block@.columns.len() > 0,
        ensures
            final(self).has_filter == old(self).has_filter,
            final(self).has_remain_reader == old(self).has_remain_reader,
            final(self).action == old(self).action,
            final(self).query_row_id_col == old(self).query_row_id_col,
            final(self).update_stream_columns == old(self).update_stream_columns,
            final(self).index == old(self).index,
            final(self).stats_type == old(self).stats_type,
            match part {
                PartInfo::Fuse(fuse_part) => filter_goes_on(
                    *old(self),
                    part,
                    fuse_part.location@,
                    data_block@,
                    predicates,
                    *final(self),
                    r,
                ),
                _ => is_internal(r, "Cannot downcast from PartInfo to FusePartInfo."@) && final(self).state
                    == old(self).state,
            },
    {
        let location = match FusePartInfo::from_part(&part) {
            Ok(fuse_part) => fuse_part.location.clone(),
            Err(e) => return Err(e),
        };
        let num_rows: usize = data_block.num_rows();
        let predicates = match predicates {
            Some(p) => p,
            None => {
                self.state = State::PerformOperator(data_block, location);
                return Ok(Some(num_rows));
            },
        };
        let affect_rows: usize = match &predicates {
            Predicates::Scalar(v) => if *v {
                num_rows
            } else {
                0
            },
            Predicates::Column(bits) => count_passing(bits),
        };
        if affect_rows == 0 {
            // Do nothing.
            self.state = State::Output(DataBlock::empty(), None);
            return Ok(None);
        }
        let mut data_block = data_block;
        let ghost evaluated = data_block@;
        // Pop the row_id column
        if self.query_row_id_col {
            data_block.pop_columns(1);
            assert(data_block@.columns =~= evaluated.columns.drop_last());
        }
        assert(rows_ok(data_block@.columns, data_block@.num_rows));
        match self.action {
            MutationAction::Deletion => {
                if affect_rows == num_rows {
                    // all the rows should be removed.
                    let meta = MutationMeta::SerializeBlock { index: self.index, stats_type: self.stats_type };
                    self.state = State::Output(DataBlock::empty(), Some(meta));
                } else {
                    match predicates {
                        Predicates::Column(bits) => {
                            let filter = invert(&bits);
                            let kept = filter_with_bitmap(&data_block, &filter);
                            if !self.has_remain_reader {
                                self.state = State::PerformOperator(kept, location);
                            } else {
                                self.state = State::ReadRemain { part, data_block: kept, filter: Some(filter) };
                            }
                        },
                        Predicates::Scalar(_) => {},
                    }
                }
            },
            MutationAction::Update => {
                let ghost p = predicates;
                let value = predicate_value(predicates);
                data_block.add_column(BlockEntry { data_type: DataType::Boolean, value });
                if !self.has_remain_reader {
                    self.state = State::PerformOperator(data_block, location);
                } else {
                    self.state = State::ReadRemain { part, data_block, filter: None };
                }
            },
        }
        Ok(Some(affect_rows))
    }

    /// Puts the other columns of a block behind those it has, without the rows that are deleted.
    pub fn merge_remain(
        &mut self,
        part: PartInfo<C>,
        remain_block: DataBlock,
        data_block: DataBlock,
        filter: Option<Vec<bool>>,
    )
        requires
            part is Fuse,
            rows_ok(remain_block@.columns, remain_block@.num_rows),
            filter matches Some(bits) ==> bits@.len() == remain_block@.num_rows,
            merged_columns(remain_block@, filter).num_rows == data_block@.num_rows,
            rows_ok(data_block@.columns, data_block@.num_rows),
        ensures
            final(self).has_filter == old(self).has_filter,
            final(self).has_remain_reader == old(self).has_remain_reader,
            final(self).action == old(self).action,
            final(self).query_row_id_col == old(self).query_row_id_col,
            final(self).update_stream_columns == old(self).update_stream_columns,
            final(self).index == old(self).index,
            final(self).stats_type == old(self).stats_type,
            final(self).state matches State::PerformOperator(b, path) && path@ == part->Fuse_0.location@ && b@ == (
            BlockView {
                columns: data_block@.columns + merged_columns(remain_block@, filter).columns,
                ..data_block@
            }),
    {
        let path = match FusePartInfo::from_part(&part) {
            Ok(fuse_part) => fuse_part.location.clone(),
            Err(_) => String::new(),
        };
        let remain = match filter {
            // for deletion.
            Some(bits) => filter_with_bitmap(&remain_block, &bits),
            None => remain_block,
        };
        let mut merged = data_block;
        proof {
            let columns = remain@.columns;
            assert forall|i: int| 0 <= i < columns.len() implies entry_rows_ok(
                #[trigger] columns[i],
                merged@.num_rows,
            ) by {}
        }
        merged.merge_block(remain);
        self.state = State::PerformOperator(merged, path);
    }

    /// Sends on a block that the operators have run on.
    pub fn perform_operator(&mut self, block: DataBlock, path: String) -> (r: Result<(), ErrorCode>)
        ensures
            final(self).has_filter == old(self).has_filter,
            final(self).has_remain_reader == old(self).has_remain_reader,
            final(self).action == old(self).action,
            final(self).query_row_id_col == old(self).query_row_id_col,
            final(self).update_stream_columns == old(self).update_stream_columns,
            final(self).index == old(self).index,
            final(self).stats_type == old(self).stats_type,
            if block@.meta is Some {
                is_internal(r, "Internal error, block meta data is set twice."@) && final(self).state == old(self).state
            } else {
                &&& r is Ok
                &&& final(self).state == State::<C, D>::Output(
                    block,
                    Some(
                        if old(self).update_stream_columns {
                            MutationMeta::Stream { index: old(self).index, stats_type: old(self).stats_type, path }
                        } else {
                            MutationMeta::SerializeBlock { index: old(self).index, stats_type: old(self).stats_type }
                        },
                    ),
                )
            },
    {
        if block.get_meta().is_some() {
            return Err(ErrorCode::Internal("Internal error, block meta data is set twice.".to_owned()));
        }
        let meta = if self.update_stream_columns {
            MutationMeta::Stream { index: self.index, stats_type: self.stats_type, path }
        } else {
            MutationMeta::SerializeBlock { index: self.index, stats_type: self.stats_type }
        };
        self.state = State::Output(block, Some(meta));
        Ok(())
    }

    /// What is done in the background from where the source stands.
    pub fn async_process(&mut self) -> (r: Result<AsyncAction<C>, ErrorCode>)
        ensures
            final(self).has_filter == old(self).has_filter,
            final(self).has_remain_reader == old(self).has_remain_reader,
            final(self).action == old(self).action,
            final(self).query_row_id_col == old(self).query_row_id_col,
            final(self).update_stream_columns == old(self).update_stream_columns,
            match old(self).state {
                State::ReadData(PartInfo::Mutation(m)) => match *m {
                    Mutation::MutationDeletedSegment(segment) => {
                        &&& r == Ok::<AsyncAction<C>, ErrorCode>(
                            AsyncAction::Done { rows: segment.segment_info.1.row_count },
                        )
                        &&& is_empty_output(final(self).state, MutationMeta::DeletedSegment(segment))
                        &&& final(self).index == old(self).index
                        &&& final(self).stats_type == old(self).stats_type
                    },
                    Mutation::MutationPartInfo(part) => {
                        &&& final(self).index == part.index
                        &&& final(self).stats_type == (if old(self).action == MutationAction::Deletion {
                            ClusterStatsGenType::WithOrigin(part.cluster_stats)
                        } else {
                            old(self).stats_type
                        })
                        &&& match part.inner_part {
                            PartInfo::Fuse(fuse_part) => if part.whole_block_mutation && old(self).action
                                == MutationAction::Deletion {
                                &&& r == Ok::<AsyncAction<C>, ErrorCode>(
                                    AsyncAction::Done { rows: fuse_part.nums_rows },
                                )
                                &&& is_empty_output(
                                    final(self).state,
                                    MutationMeta::SerializeBlock {
                                        index: part.index,
                                        stats_type: ClusterStatsGenType::WithOrigin(part.cluster_stats),
                                    },
                                )
                            } else {
                                &&& r == Ok::<AsyncAction<C>, ErrorCode>(AsyncAction::Read(part.inner_part))
                                &&& final(self).state == State::<C, D>::Init
                            },
                            _ => is_internal(r, "Cannot downcast from PartInfo to FusePartInfo."@) && final(self).state
                                == State::<C, D>::Init,
                        }
                    },
                },
                State::ReadData(_) => {
                    &&& is_internal(r, "Cannot downcast from PartInfo to Mutation."@)
                    &&& *final(self) == (MutationSource { state: State::<C, D>::Init, ..*old(self) })
                },
                State::ReadRemain { part, data_block, filter } => {
                    &&& *final(self) == (MutationSource { state: State::<C, D>::Init, ..*old(self) })
                    &&& if !old(self).has_remain_reader {
                        is_internal(r, "It's a bug. No remain reader"@)
                    } else if !(part is Fuse) {
                        is_internal(r, "Cannot downcast from PartInfo to FusePartInfo."@)
                    } else {
                        r == Ok::<AsyncAction<C>, ErrorCode>(AsyncAction::ReadRemain { part, data_block, filter })
                    }
                },
                _ => {
                    &&& is_internal(r, "It's a bug."@)
                    &&& *final(self) == (MutationSource { state: State::<C, D>::Init, ..*old(self) })
                },
            },
    {
        match self.take_state() {
            State::ReadData(part) => match part {
                PartInfo::Mutation(mutation) => match *mutation {
                    Mutation::MutationDeletedSegment(segment) => {
                        let rows: u64 = segment.segment_info.1.row_count;
                        self.state = State::Output(DataBlock::empty(), Some(MutationMeta::DeletedSegment(segment)));
                        Ok(AsyncAction::Done { rows })
                    },
                    Mutation::MutationPartInfo(info) => self.read_part(info),
                },
                other => match Mutation::from_part(&other) {
                    Ok(_) => Err(ErrorCode::Internal("It's a bug.".to_owned())),
                    Err(e) => Err(e),
                },
            },
            State::ReadRemain { part, data_block, filter } => {
                if !self.has_remain_reader {
                    return Err(ErrorCode::Internal("It's a bug. No remain reader".to_owned()));
                }
                match FusePartInfo::from_part(&part) {
                    Err(e) => return Err(e),
                    Ok(_) => {},
                }
                Ok(AsyncAction::ReadRemain { part, data_block, filter })
            },
            _ => Err(ErrorCode::Internal("It's a bug.".to_owned())),
        }
    }

    fn read_part(&mut self, part: MutationPartInfo<C>) -> (r: Result<AsyncAction<C>, ErrorCode>)
        requires
            old(self).state == State::<C, D>::Init,
        ensures
            final(self).has_filter == old(self).has_filter,
            final(self).has_remain_reader == old(self).has_remain_reader,
            final(self).action == old(self).action,
            final(self).query_row_id_col == old(self).query_row_id_col,
            final(self).update_stream_columns == old(self).update_stream_columns,
            final(self).index == part.index,
            final(self).stats_type == (if old(self).action == MutationAction::Deletion {
                ClusterStatsGenType::WithOrigin(part.cluster_stats)
            } else {
                old(self).stats_type
            }),
            match part.inner_part {
                PartInfo::Fuse(fuse_part) => if part.whole_block_mutation && old(self).action
                    == MutationAction::Deletion {
                    &&& r == Ok::<AsyncAction<C>, ErrorCode>(AsyncAction::Done { rows: fuse_part.nums_rows })
                    &&& is_empty_output(
                        final(self).state,
                        MutationMeta::SerializeBlock {
                            index: part.index,
                            stats_type: ClusterStatsGenType::WithOrigin(part.cluster_stats),
                        },
                    )
                } else {
                    &&& r == Ok::<AsyncAction<C>, ErrorCode>(AsyncAction::Read(part.inner_part))
                    &&& final(self).state == State::<C, D>::Init
                },
                _ => is_internal(r, "Cannot downcast from PartInfo to FusePartInfo."@) && final(self).state == State::<
                    C,
                    D,
                >::Init,
            },
    {
        self.index = part.index;
        let deletes = matches!(self.action, MutationAction::Deletion);
        if deletes {
            self.stats_type = ClusterStatsGenType::WithOrigin(part.cluster_stats);
        }
        let rows: u64 = match FusePartInfo::from_part(&part.inner_part) {
            Ok(fuse_part) => fuse_part.nums_rows,
            Err(e) => return Err(e),
        };
        if part.whole_block_mutation && deletes {
            // whole block deletion.
            let meta = MutationMeta::SerializeBlock { index: self.index, stats_type: self.stats_type };
            self.state = State::Output(DataBlock::empty(), Some(meta));
            Ok(AsyncAction::Done { rows })
        } else {
            Ok(AsyncAction::Read(part.inner_part))
        }
    }

    /// The columns of a part were read.
    pub fn data_read(&mut self, part: PartInfo<C>, data: D)
        ensures
            *final(self) == (MutationSource { state: State::FilterData(part, data), ..*old(self) }),
    {
        self.state = State::FilterData(part, data);
    }

    /// The other columns of a part were read.
    pub fn remain_read(&mut self, part: PartInfo<C>, data: D, data_block: DataBlock, filter: Option<Vec<bool>>)
        ensures
            *final(self) == (MutationSource {
                state: State::MergeRemain { part, merged_io_read_result: data, data_block, filter },
                ..*old(self)
            }),
    {
        self.state = State::MergeRemain { part, merged_io_read_result: data, data_block, filter };
    }
}

/// A block without rows goes out, with the given meta.
pub open spec fn is_empty_output<C, D>(state: State<C, D>, meta: MutationMeta<C>) -> bool {
    state matches State::Output(b, m) && b@ == (BlockView { columns: Seq::empty(), num_rows: 0, meta: None }) && m
        == Some(meta)
}

/// The other columns of a block as they are put behind those it has.
pub open spec fn merged_columns(remain: BlockView, filter: Option<Vec<bool>>) -> BlockView {
    match filter {
        Some(bits) => filtered(remain, bits@),
        None => remain,
    }
}

/// Where a block goes that a filter was evaluated on, and how many of its rows are mutated.
pub open spec fn filter_goes_on<C, D>(
    before: MutationSource<C, D>,
    part: PartInfo<C>,
    location: Seq<char>,
    evaluated: BlockView,
    predicates: Option<Predicates>,
    after: MutationSource<C, D>,
    r: Result<Option<usize>, ErrorCode>,
) -> bool {
    match predicates {
        None => {
            &&& r == Ok::<Option<usize>, ErrorCode>(Some(evaluated.num_rows as usize))
            &&& after.state matches State::PerformOperator(b, path) && b@ == evaluated && path@ == location
        },
        Some(p) => {
            let affect_rows = affected(p, evaluated.num_rows);
            let block = if before.query_row_id_col {
                without_last(evaluated)
            } else {
                evaluated
            };
            if affect_rows == 0 {
                &&& r == Ok::<Option<usize>, ErrorCode>(None)
                &&& after.state matches State::Output(b, m) && m is None && b@ == (BlockView {
                    columns: Seq::empty(),
                    num_rows: 0,
                    meta: None,
                })
            } else {
                &&& r == Ok::<Option<usize>, ErrorCode>(Some(affect_rows as usize))
                &&& match before.action {
                    MutationAction::Deletion => if affect_rows == evaluated.num_rows {
                        is_empty_output(
                            after.state,
                            MutationMeta::SerializeBlock { index: before.index, stats_type: before.stats_type },
                        )
                    } else {
                        p matches Predicates::Column(bits) && if before.has_remain_reader {
                            after.state matches State::ReadRemain { part: q, data_block, filter } && q == part
                                && data_block@ == filtered(block, inverted(bits@)) && (filter matches Some(f) && f@
                                == inverted(bits@))
                        } else {
                            after.state matches State::PerformOperator(b, path) && b@ == filtered(
                                block,
                                inverted(bits@),
                            ) && path@ == location
                        }
                    },
                    MutationAction::Update => {
                        let marked = BlockView { columns: block.columns.push(predicate_entry(p)), ..block };
                        if before.has_remain_reader {
                            after.state matches State::ReadRemain { part: q, data_block, filter } && q == part
                                && data_block@ == marked && filter is None
                        } else {
                            after.state matches State::PerformOperator(b, path) && b@ == marked && path@ == location
                        }
                    },
                }
            }
        },
    }
}

/// Of a block that is deleted from, a row stays if and only if the filter does not let it
/// through, and the rows that go and those that stay are all of them.
pub proof fn deletion_keeps_the_other_rows(b: BlockView, bits: Seq<bool>)
    requires
        bits.len() == b.num_rows,
    ensures
        filtered(b, inverted(bits)).num_rows + passing(bits) == b.num_rows,
        forall|i: int|
            0 <= i < b.num_rows ==> (#[trigger] set_bits(inverted(bits)).contains(i) <==> !bits[i]),
{
    let kept = inverted(bits);
    lemma_kept_and_gone(bits, bits.len());
    assert(bits.take(bits.len() as int) =~= bits);
    assert forall|i: int| 0 <= i < b.num_rows implies (#[trigger] set_bits(kept).contains(i) <==> !bits[i]) by {
        lemma_numbers_contain(kept.len(), |j: int| kept[j], i);
    }
}

proof fn lemma_kept_and_gone(bits: Seq<bool>, n: nat)
    requires
        n <= bits.len(),
    ensures
        ({
            let kept = inverted(bits);
            numbers_where(n, |j: int| kept[j]).len() + passing(bits.take(n as int)) == n
        }),
    decreases n,
{
    if n > 0 {
        lemma_kept_and_gone(bits, (n - 1) as nat);
        assert(bits.take(n as int).drop_last() =~= bits.take(n - 1));
    } else {
        assert(bits.take(0) =~= Seq::<bool>::empty());
    }
}

/// What a filter says of a row.
pub open spec fn lets_through(p: Predicates) -> spec_fn(int) -> bool {
    |i: int|
        match p {
            Predicates::Scalar(v) => v,
            Predicates::Column(bits) => bits@[i],
        }
}

/// What a filter does not say of a row.
pub open spec fn holds_back(p: Predicates) -> spec_fn(int) -> bool {
    |i: int|
        match p {
            Predicates::Scalar(v) => !v,
            Predicates::Column(bits) => !bits@[i],
        }
}

/// The block that goes on from here, to the operators or to have its other columns read.
pub open spec fn block_on_its_way<C, D>(state: State<C, D>) -> Option<BlockView> {
    match state {
        State::PerformOperator(b, _) => Some(b@),
        State::ReadRemain { part: _, data_block, filter: _ } => Some(data_block@),
        _ => None,
    }
}

/// How many columns a block has but for the ids of its rows.
pub open spec fn own_columns<C, D>(source: MutationSource<C, D>, evaluated: BlockView) -> int {
    if source.query_row_id_col {
        evaluated.columns.len() - 1
    } else {
        evaluated.columns.len() as int
    }
}

/// The rows that a filter affects are those that it lets through.
proof fn lemma_affected_places(p: Predicates, n: nat) -> (places: Seq<int>)
    requires
        p matches Predicates::Column(bits) ==> bits@.len() == n,
    ensures
        are_the_places(places, n as int, lets_through(p)),
        places.len() == affected(p, n),
        affected(p, n) <= n,
{
    let test = lets_through(p);
    let places = numbers_where(n, test);
    numbers_are_the_places(n, test);
    lemma_numbers_below(n, test);
    match p {
        Predicates::Scalar(v) => {
            lemma_all_or_none(n, test, v);
        },
        Predicates::Column(bits) => {
            lemma_passing_places(bits@, test, n);
            assert(bits@.take(n as int) =~= bits@);
        },
    }
    places
}

proof fn lemma_all_or_none(n: nat, test: spec_fn(int) -> bool, v: bool)
    requires
        forall|i: int| #[trigger] test(i) == v,
    ensures
        numbers_where(n, test).len() == if v {
            n
        } else {
            0
        },
    decreases n,
{
    if n > 0 {
        lemma_all_or_none((n - 1) as nat, test, v);
        assert(test(n - 1) == v);
    }
}

proof fn lemma_passing_places(bits: Seq<bool>, test: spec_fn(int) -> bool, n: nat)
    requires
        n <= bits.len(),
        forall|i: int| 0 <= i < bits.len() ==> #[trigger] test(i) == bits[i],
    ensures
        numbers_where(n, test).len() == passing(bits.take(n as int)),
    decreases n,
{
    if n > 0 {
        lemma_passing_places(bits, test, (n - 1) as nat);
        assert(bits.take(n as int).drop_last() =~= bits.take(n - 1));
        assert(test(n - 1) == bits[n - 1]);
    } else {
        assert(bits.take(0) =~= Seq::<bool>::empty());
    }
}

/// An update marks the rows that the filter lets through, and no others: the block goes on with
/// its own columns and, behind them, a column of booleans that is true in exactly those rows; and
/// the number of those rows is the progress. Where there are none, nothing goes on.
pub proof fn an_update_marks_the_rows_that_pass<C, D>(
    before: MutationSource<C, D>,
    part: PartInfo<C>,
    location: Seq<char>,
    evaluated: BlockView,
    p: Predicates,
    after: MutationSource<C, D>,
    r: Result<Option<usize>, ErrorCode>,
)
    requires
        before.action == MutationAction::Update,
        evaluated.num_rows <= usize::MAX,
        p matches Predicates::Column(bits) ==> bits@.len() == evaluated.num_rows,
        before.query_row_id_col ==> evaluated.columns.len() > 0,
        filter_goes_on(before, part, location, evaluated, Some(p), after, r),
    ensures
        ({
            let n = evaluated.num_rows;
            let own = own_columns(before, evaluated);
            &&& exists|places: Seq<int>|
                #[trigger] are_the_places(places, n as int, lets_through(p)) && r == Ok::<Option<usize>, ErrorCode>(
                    if places.len() == 0 {
                        None
                    } else {
                        Some(places.len() as usize)
                    },
                )
            &&& match r {
                Ok(Some(_)) => {
                    &&& before.has_remain_reader <==> after.state is ReadRemain
                    &&& block_on_its_way(after.state) matches Some(b) && {
                        &&& b.num_rows == n
                        &&& b.columns.len() == own + 1
                        &&& b.columns.take(own) == evaluated.columns.take(own)
                        &&& b.columns[own].data_type == TypeView::Boolean
                        &&& full_column(b.columns[own], n).rows.len() == n
                        &&& forall|i: int|
                            0 <= i < n ==> #[trigger] full_column(b.columns[own], n).rows[i] == ScalarView::Boolean(
                                lets_through(p)(i),
                            )
                    }
                },
                _ => after.state matches State::Output(b, meta) && meta is None && b@.num_rows == 0,
            }
        }),
{
    let n = evaluated.num_rows;
    let places = lemma_affected_places(p, n);
    let own = own_columns(before, evaluated);
    if affected(p, n) > 0 {
        let b = block_on_its_way(after.state)->0;
        assert(b.columns.take(own) =~= evaluated.columns.take(own));
    }
}

/// A deletion takes away the rows that the filter lets through, and no others: what goes on are
/// the own columns of the rows that it holds back, whole and in their order, with the word which
/// rows those are where other columns are still to be read; and the number of rows that go is the
/// progress. Where all rows go, a block without rows takes the place of the block; where none go,
/// nothing goes on.
pub proof fn a_deletion_takes_the_rows_that_pass<C, D>(
    before: MutationSource<C, D>,
    part: PartInfo<C>,
    location: Seq<char>,
    evaluated: BlockView,
    p: Predicates,
    after: MutationSource<C, D>,
    r: Result<Option<usize>, ErrorCode>,
)
    requires
        before.action == MutationAction::Deletion,
        evaluated.num_rows <= usize::MAX,
        p matches Predicates::Column(bits) ==> bits@.len() == evaluated.num_rows,
        before.query_row_id_col ==> evaluated.columns.len() > 0,
        filter_goes_on(before, part, location, evaluated, Some(p), after, r),
    ensures
        ({
            let n = evaluated.num_rows;
            let own = own_columns(before, evaluated);
            &&& exists|places: Seq<int>|
                #[trigger] are_the_places(places, n as int, lets_through(p)) && r == Ok::<Option<usize>, ErrorCode>(
                    if places.len() == 0 {
                        None
                    } else {
                        Some(places.len() as usize)
                    },
                )
            &&& match r {
                Ok(Some(gone)) => if gone == n {
                    after.state matches State::Output(b, Some(MutationMeta::SerializeBlock { index, stats_type }))
                        && b@.num_rows == 0 && index == before.index && stats_type == before.stats_type
                } else {
                    &&& before.has_remain_reader <==> after.state is ReadRemain
                    &&& after.state matches State::ReadRemain { part: q, data_block: _, filter } ==> q == part && (
                    filter matches Some(f) && f@.len() == n && forall|i: int|
                        0 <= i < n ==> #[trigger] f@[i] == holds_back(p)(i))
                    &&& block_on_its_way(after.state) matches Some(b) && b.columns.len() == own && exists|
                        kept: Seq<int>,
                    |
                        {
                            &&& #[trigger] are_the_places(kept, n as int, holds_back(p))
                            &&& b.num_rows == kept.len()
                            &&& kept.len() + gone == n
                            &&& forall|j: int, c: int|
                                0 <= j < kept.len() && 0 <= c < own ==> #[trigger] full_column(
                                    b.columns[c],
                                    b.num_rows,
                                ).rows[j] == full_column(evaluated.columns[c], n).rows[kept[j]]
                        }
                },
                _ => after.state matches State::Output(b, meta) && meta is None && b@.num_rows == 0,
            }
        }),
{
    let n = evaluated.num_rows;
    let places = lemma_affected_places(p, n);
    let own = own_columns(before, evaluated);
    let gone = affected(p, n);
    if gone > 0 && gone != n {
        match p {
            Predicates::Column(bits) => {
                let f = inverted(bits@);
                let test = |i: int| f[i];
                let kept = numbers_where(n, test);
                assert(set_bits(f) == kept);
                numbers_are_the_places(n, test);
                lemma_numbers_below(n, test);
                let other = holds_back(p);
                assert(are_the_places(kept, n as int, other)) by {
                    assert forall|j: int| 0 <= j < kept.len() implies 0 <= #[trigger] kept[j] < n && other(kept[j]) by {
                        assert(test(kept[j]));
                    }
                    assert forall|k: int| 0 <= k < n && #[trigger] other(k) implies kept.contains(k) by {
                        assert(test(k));
                    }
                }
                lemma_kept_and_gone(bits@, n);
                assert(bits@.take(n as int) =~= bits@);
                let block = if before.query_row_id_col {
                    without_last(evaluated)
                } else {
                    evaluated
                };
                let b = block_on_its_way(after.state)->0;
                assert(b == filtered(block, f));
                assert forall|j: int, c: int| 0 <= j < kept.len() && 0 <= c < own implies #[trigger] full_column(
                    b.columns[c],
                    b.num_rows,
                ).rows[j] == full_column(evaluated.columns[c], n).rows[kept[j]] by {
                    assert(block.columns[c] == evaluated.columns[c]);
                }
            },
            Predicates::Scalar(_) => {},
        }
    }
}

/// Without a filter every row is mutated, and the block goes on as it is.
pub proof fn without_a_filter_every_row_is_mutated<C, D>(
    before: MutationSource<C, D>,
    part: PartInfo<C>,
    location: Seq<char>,
    evaluated: BlockView,
    after: MutationSource<C, D>,
    r: Result<Option<usize>, ErrorCode>,
)
    requires
        filter_goes_on(before, part, location, evaluated, None, after, r),
    ensures
        r == Ok::<Option<usize>, ErrorCode>(Some(evaluated.num_rows as usize)),
        after.state is PerformOperator,
        block_on_its_way(after.state) == Some(evaluated),
{
}

/// The other columns of a block that is deleted from lose the rows that the block has lost, whole
/// and no others; those of a block that is updated stay as they are.
pub proof fn the_other_columns_lose_the_same_rows(remain: BlockView, filter: Option<Vec<bool>>)
    requires
        filter matches Some(bits) ==> bits@.len() == remain.num_rows,
    ensures
        filter is None ==> merged_columns(remain, filter) == remain,
        filter matches Some(bits) ==> merged_columns(remain, filter).columns.len() == remain.columns.len() && exists|
            kept: Seq<int>,
        |
            {
                &&& #[trigger] are_the_places(kept, remain.num_rows as int, is_set(bits@))
                &&& merged_columns(remain, filter).num_rows == kept.len()
                &&& forall|j: int, c: int|
                    0 <= j < kept.len() && 0 <= c < remain.columns.len() ==> #[trigger] full_column(
                        merged_columns(remain, filter).columns[c],
                        kept.len(),
                    ).rows[j] == full_column(remain.columns[c], remain.num_rows).rows[kept[j]]
            },
{
    if let Some(bits) = filter {
        let f = bits@;
        let test = |i: int| f[i];
        let kept = numbers_where(f.len(), test);
        assert(set_bits(f) == kept);
        numbers_are_the_places(f.len(), test);
        let other = is_set(f);
        assert(are_the_places(kept, f.len() as int, other)) by {
            assert forall|j: int| 0 <= j < kept.len() implies 0 <= #[trigger] kept[j] < f.len() && other(kept[j]) by {
                assert(test(kept[j]));
            }
            assert forall|k: int| 0 <= k < f.len() && #[trigger] other(k) implies kept.contains(k) by {
                assert(test(k));
            }
        }
    }
}

/// Whether a bit is set.
pub open spec fn is_set(bits: Seq<bool>) -> spec_fn(int) -> bool {
    |i: int| bits[i]
}

/// A block that takes the place of deleted rows has no rows and no columns, and says which block it
/// stands for.
pub proof fn an_empty_block_says_what_it_stands_for<C, D>(state: State<C, D>, meta: MutationMeta<C>)
    requires
        is_empty_output(state, meta),
    ensures
        state matches State::Output(b, m) && b@.num_rows == 0 && b@.columns.len() == 0 && m == Some(meta),
{
}

}
