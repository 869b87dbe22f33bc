//! Blocks of rows.

use core::ops::Range;
use std::collections::HashSet;

use vstd::prelude::*;

use crate::build_spill::are_the_places;
use crate::build_spill::lemma_numbers_below;
use crate::build_spill::numbers_are_the_places;
use crate::build_spill::numbers_where;
use crate::column::repeated;
use crate::column::rows_in;
use crate::column::rows_size;
use crate::column::scalar_size;
use crate::column::stored_rows;
use crate::error::ErrorCode;
use crate::schema::field_position;
use crate::schema::DataSchema;
use crate::schema::FieldView;
use crate::schema::TableSchema;
use crate::text::decimal;
use crate::text::join;
use crate::text::push_decimal;
use crate::text::quote;
use crate::text::quoted;
use crate::text::separated;
use crate::text::texts;
use crate::types::column_ok;
use crate::types::has_type;
use crate::types::remove_nullable;
use crate::types::type_text;
use crate::types::Column;
use crate::types::ColumnView;
use crate::types::DataType;
use crate::types::Scalar;
use crate::types::ScalarView;
use crate::types::TypeView;

verus! {

/// One value for all rows of a block, or one value for each.
#[derive(Debug)]
pub enum Value {
    Scalar(Scalar),
    Column(Column),
}

pub enum ValueView {
    Scalar(ScalarView),
    Column(ColumnView),
}

impl View for Value {
    type V = ValueView;

    open spec fn view(&self) -> ValueView {
        match self {
            Value::Scalar(s) => ValueView::Scalar(s@),
            Value::Column(c) => ValueView::Column(c@),
        }
    }
}

impl Clone for Value {
    fn clone(&self) -> (r: Value)
        ensures
            r@ == self@,
    {
        match self {
            Value::Scalar(s) => Value::Scalar(s.clone()),
            Value::Column(c) => Value::Column(c.clone()),
        }
    }
}

/// What a block carries beside its rows.
#[derive(Clone, Copy, Debug, PartialEq, Eq, Structural)]
pub enum BlockMeta {
    SortSpill,
    SortSpillWithParams { batch_size: usize, num_merge: usize },
    /// A meta that is kept elsewhere, by its number.
    Kept(u64),
}

pub type BlockMetaInfoPtr = Box<BlockMeta>;

/// A meta of one kind.
pub trait BlockMetaInfo: Sized {
    /// The meta as a block carries it.
    spec fn erased(&self) -> BlockMeta;

    fn equals(&self, info: &BlockMetaInfoPtr) -> (r: bool)
        ensures
            r == (self.erased() == **info),
    ;

    fn clone_self(&self) -> (r: BlockMetaInfoPtr)
        ensures
            *r == self.erased(),
    ;
}

/// Finds the meta of one kind again in what a block carries.
pub trait BlockMetaInfoDowncast: BlockMetaInfo {
    fn downcast_from(boxed: BlockMetaInfoPtr) -> (r: Option<Self>)
        ensures
            r matches Some(m) ==> m.erased() == *boxed,
            r is None ==> forall|m: Self| (#[trigger] m.erased()) != *boxed,
    ;

    fn downcast_ref_from(boxed: &BlockMetaInfoPtr) -> (r: Option<Self>)
        ensures
            r matches Some(m) ==> m.erased() == **boxed,
            r is None ==> forall|m: Self| (#[trigger] m.erased()) != **boxed,
    ;
}

/// Asks a sort to spill what it holds.
#[derive(Clone, Copy, Debug, PartialEq, Eq, Structural)]
pub struct SortSpillMeta {}

/// Asks a sort to spill what it holds, in batches of the given size.
#[derive(Clone, Copy, Debug, PartialEq, Eq, Structural)]
pub struct SortSpillMetaWithParams {
    pub batch_size: usize,
    pub num_merge: usize,
}

impl BlockMetaInfo for SortSpillMeta {
    open spec fn erased(&self) -> BlockMeta {
        BlockMeta::SortSpill
    }

    fn equals(&self, info: &BlockMetaInfoPtr) -> bool {
        matches!(**info, BlockMeta::SortSpill)
    }

    fn clone_self(&self) -> BlockMetaInfoPtr {
        Box::new(BlockMeta::SortSpill)
    }
}

impl BlockMetaInfoDowncast for SortSpillMeta {
    fn downcast_from(boxed: BlockMetaInfoPtr) -> Option<SortSpillMeta> {
        Self::downcast_ref_from(&boxed)
    }

    fn downcast_ref_from(boxed: &BlockMetaInfoPtr) -> Option<SortSpillMeta> {
        match **boxed {
            BlockMeta::SortSpill => Some(SortSpillMeta {  }),
            _ => None,
        }
    }
}

impl BlockMetaInfo for SortSpillMetaWithParams {
    open spec fn erased(&self) -> BlockMeta {
        BlockMeta::SortSpillWithParams { batch_size: self.batch_size, num_merge: self.num_merge }
    }

    fn equals(&self, info: &BlockMetaInfoPtr) -> bool {
        match **info {
            BlockMeta::SortSpillWithParams { batch_size, num_merge } => batch_size == self.batch_size
                && num_merge == self.num_merge,
            _ => false,
        }
    }

    fn clone_self(&self) -> BlockMetaInfoPtr {
        Box::new(BlockMeta::SortSpillWithParams { batch_size: self.batch_size, num_merge: self.num_merge })
    }
}

impl BlockMetaInfoDowncast for SortSpillMetaWithParams {
    fn downcast_from(boxed: BlockMetaInfoPtr) -> Option<SortSpillMetaWithParams> {
        Self::downcast_ref_from(&boxed)
    }

    fn downcast_ref_from(boxed: &BlockMetaInfoPtr) -> Option<SortSpillMetaWithParams> {
        match **boxed {
            BlockMeta::SortSpillWithParams { batch_size, num_merge } => Some(
                SortSpillMetaWithParams { batch_size, num_merge },
            ),
            _ => None,
        }
    }
}

/// A typed value of a block.
#[derive(Debug)]
pub struct BlockEntry {
    pub data_type: DataType,
    pub value: Value,
}

pub struct EntryView {
    pub data_type: TypeView,
    pub value: ValueView,
}

impl View for BlockEntry {
    type V = EntryView;

    open spec fn view(&self) -> EntryView {
        EntryView { data_type: self.data_type@, value: self.value@ }
    }
}

impl Clone for BlockEntry {
    fn clone(&self) -> (r: BlockEntry)
        ensures
            r@ == self@,
    {
        BlockEntry { data_type: self.data_type.clone(), value: self.value.clone() }
    }
}

/// A value fits a type: a scalar has it, a column is of it throughout.
pub open spec fn value_ok(t: TypeView, v: ValueView) -> bool {
    match v {
        ValueView::Scalar(s) => has_type(t, s),
        ValueView::Column(c) => c.data_type == t && column_ok(c),
    }
}

pub open spec fn entry_ok(e: EntryView) -> bool {
    value_ok(e.data_type, e.value)
}

/// An entry has the given number of rows: any number where it holds a scalar.
pub open spec fn entry_rows_ok(e: EntryView, num_rows: nat) -> bool {
    e.value matches ValueView::Column(c) ==> c.rows.len() == num_rows
}

/// An entry with one value for each of `num_rows` rows.
pub open spec fn full_column(e: EntryView, num_rows: nat) -> ColumnView {
    match e.value {
        ValueView::Scalar(s) => ColumnView { data_type: e.data_type, rows: repeated(s, num_rows) },
        ValueView::Column(c) => c,
    }
}

pub open spec fn full_entry(e: EntryView, num_rows: nat) -> EntryView {
    EntryView { data_type: e.data_type, value: ValueView::Column(full_column(e, num_rows)) }
}

/// The entry without the `Nullable` around it, where it is a nullable column: the values stay as
/// they are stored.
pub open spec fn entry_without_nullable(e: EntryView) -> EntryView {
    match e.value {
        ValueView::Column(c) => if c.data_type is Nullable {
            EntryView {
                data_type: remove_nullable(e.data_type),
                value: ValueView::Column(
                    ColumnView { data_type: remove_nullable(c.data_type), rows: stored_rows(c) },
                ),
            }
        } else {
            e
        },
        ValueView::Scalar(_) => e,
    }
}

impl BlockEntry {
    pub fn new(data_type: DataType, value: Value) -> (r: BlockEntry)
        requires
            value_ok(data_type@, value@),
        ensures
            r@ == (EntryView { data_type: data_type@, value: value@ }),
            entry_ok(r@),
    {
        BlockEntry { data_type, value }
    }

    pub fn remove_nullable(self) -> (r: BlockEntry)
        ensures
            r@ == entry_without_nullable(self@),
    {
        match &self.value {
            Value::Column(c) => match &c.data_type {
                DataType::Nullable(_) => BlockEntry {
                    data_type: self.data_type.remove_nullable(),
                    value: Value::Column(c.strip_nullable()),
                },
                _ => self,
            },
            _ => self,
        }
    }

    pub fn to_column(&self, num_rows: usize) -> (r: Column)
        ensures
            r@ == full_column(self@, num_rows as nat),
    {
        match &self.value {
            Value::Scalar(s) => Column::repeat(s, num_rows, &self.data_type),
            Value::Column(c) => c.clone(),
        }
    }
}

pub open spec fn entry_views(s: Seq<BlockEntry>) -> Seq<EntryView> {
    s.map_values(|e: BlockEntry| e@)
}

/// A lightweight container for a group of columns.
#[derive(Debug)]
pub struct DataBlock {
    columns: Vec<BlockEntry>,
    num_rows: usize,
    meta: Option<BlockMetaInfoPtr>,
}

pub struct BlockView {
    pub columns: Seq<EntryView>,
    pub num_rows: nat,
    pub meta: Option<BlockMeta>,
}

impl View for DataBlock {
    type V = BlockView;

    closed spec fn view(&self) -> BlockView {
        BlockView {
            columns: entry_views(self.columns@),
            num_rows: self.num_rows as nat,
            meta: meta_view(self.meta),
        }
    }
}

pub open spec fn meta_view(m: Option<BlockMetaInfoPtr>) -> Option<BlockMeta> {
    match m {
        Some(b) => Some(*b),
        None => None,
    }
}

/// Every entry is of its type.
pub open spec fn entries_ok(columns: Seq<EntryView>) -> bool {
    forall|i: int| 0 <= i < columns.len() ==> entry_ok(#[trigger] columns[i])
}

/// Every column has the given number of rows.
pub open spec fn rows_ok(columns: Seq<EntryView>, num_rows: nat) -> bool {
    forall|i: int| 0 <= i < columns.len() ==> entry_rows_ok(#[trigger] columns[i], num_rows)
}

/// A block is valid: its entries are of their types and its columns have its number of rows.
pub open spec fn block_ok(b: BlockView) -> bool {
    entries_ok(b.columns) && rows_ok(b.columns, b.num_rows) && b.num_rows <= usize::MAX
}

pub open spec fn slice_entry(e: EntryView, start: int, end: int) -> EntryView {
    EntryView {
        data_type: e.data_type,
        value: match e.value {
            ValueView::Scalar(s) => ValueView::Scalar(s),
            ValueView::Column(c) => ValueView::Column(
                ColumnView { data_type: c.data_type, rows: rows_in(c.rows, start, end) },
            ),
        },
    }
}

/// The rows of a block from `start` up to `end`.
pub open spec fn slice_view(b: BlockView, start: int, end: int) -> BlockView {
    BlockView {
        columns: b.columns.map_values(|e: EntryView| slice_entry(e, start, end)),
        num_rows: if start >= end {
            0
        } else {
            (end - start) as nat
        },
        meta: b.meta,
    }
}

pub open spec fn full_view(b: BlockView) -> BlockView {
    BlockView {
        columns: b.columns.map_values(|e: EntryView| full_entry(e, b.num_rows)),
        num_rows: b.num_rows,
        meta: b.meta,
    }
}

/// The elements whose positions are kept, in order.
pub open spec fn kept<A>(s: Seq<A>, keep: spec_fn(int) -> bool) -> Seq<A>
    decreases s.len(),
{
    if s.len() == 0 {
        Seq::empty()
    } else if keep(s.len() - 1) {
        kept(s.drop_last(), keep).push(s.last())
    } else {
        kept(s.drop_last(), keep)
    }
}

pub open spec fn block_views(s: Seq<DataBlock>) -> Seq<BlockView> {
    s.map_values(|b: DataBlock| b@)
}

/// How many of the first `n` have no default.
pub open spec fn missing(defaults: Seq<Option<Scalar>>, n: int) -> int
    decreases n,
{
    if n <= 0 {
        0
    } else {
        missing(defaults, n - 1) + if defaults[n - 1] is None {
            1int
        } else {
            0
        }
    }
}

/// The entry for a field: its default for all rows, or else the next column of the chunk.
pub open spec fn defaulted(
    fields: Seq<FieldView>,
    chunk: Seq<Column>,
    defaults: Seq<Option<Scalar>>,
    i: int,
) -> EntryView {
    EntryView {
        data_type: fields[i].data_type,
        value: match defaults[i] {
            Some(s) => ValueView::Scalar(s@),
            None => ValueView::Column(chunk[missing(defaults, i)]@),
        },
    }
}

/// How many of the first `n` fields are among the given columns.
pub open spec fn present(ids: Seq<u32>, known: Set<u32>, n: int) -> int
    decreases n,
{
    if n <= 0 {
        0
    } else {
        present(ids, known, n - 1) + if known.contains(ids[n - 1]) {
            1int
        } else {
            0
        }
    }
}

fn clone_meta(m: &Option<BlockMetaInfoPtr>) -> (r: Option<BlockMetaInfoPtr>)
    ensures
        meta_view(r) == meta_view(*m),
{
    match m {
        Some(b) => Some(Box::new(**b)),
        None => None,
    }
}

impl DataBlock {
    pub fn new(columns: Vec<BlockEntry>, num_rows: usize) -> (r: DataBlock)
        requires
            rows_ok(entry_views(columns@), num_rows as nat),
        ensures
            r@ == (BlockView { columns: entry_views(columns@), num_rows: num_rows as nat, meta: None }),
    {
        DataBlock::new_with_meta(columns, num_rows, None)
    }

    pub fn new_with_meta(
        columns: Vec<BlockEntry>,
        num_rows: usize,
        meta: Option<BlockMetaInfoPtr>,
    ) -> (r: DataBlock)
        requires
            rows_ok(entry_views(columns@), num_rows as nat),
        ensures
            r@ == (BlockView {
                columns: entry_views(columns@),
                num_rows: num_rows as nat,
                meta: meta_view(meta),
            }),
    {
        DataBlock { columns, num_rows, meta }
    }

    fn check_columns_valid(columns: &Vec<BlockEntry>, num_rows: usize) -> (r: Result<(), ErrorCode>)
        ensures
            r is Ok <==> rows_ok(entry_views(columns@), num_rows as nat),
            r matches Err(e) ==> first_mismatch(entry_views(columns@), num_rows as nat, e),
    {
        let ghost views = entry_views(columns@);
        let mut i: usize = 0;
        while i < columns.len()
            invariant
                i <= columns.len(),
                views == entry_views(columns@),
                forall|j: int| 0 <= j < i ==> entry_rows_ok(#[trigger] views[j], num_rows as nat),
            decreases columns.len() - i,
        {
            assert(views[i as int] == columns@[i as int]@);
            if let Value::Column(c) = &columns[i].value {
                if c.len() != num_rows {
                    let e = ErrorCode::Internal(mismatch_message(c, num_rows));
                    assert(is_mismatch(views, num_rows as nat, e, i as int));
                    return Err(e);
                }
            }
            i += 1;
        }
        Ok(())
    }

    pub fn check_valid(&self) -> (r: Result<(), ErrorCode>)
        ensures
            r is Ok <==> rows_ok(self@.columns, self@.num_rows),
            r matches Err(e) ==> first_mismatch(self@.columns, self@.num_rows, e),
    {
        Self::check_columns_valid(&self.columns, self.num_rows)
    }

    pub fn new_from_columns(columns: Vec<Column>) -> (r: DataBlock)
        requires
            columns@.len() > 0,
            forall|i: int| 0 <= i < columns@.len() ==> (#[trigger] columns@[i])@.rows.len() == columns@[0]@.rows.len(),
        ensures
            r@.num_rows == columns@[0]@.rows.len(),
            r@.meta is None,
            r@.columns == columns@.map_values(
                |c: Column| EntryView { data_type: c@.data_type, value: ValueView::Column(c@) },
            ),
            (forall|i: int| 0 <= i < columns@.len() ==> column_ok((#[trigger] columns@[i])@)) ==> block_ok(r@),
    {
        let num_rows: usize = columns[0].len();
        let mut entries: Vec<BlockEntry> = Vec::new();
        let mut i: usize = 0;
        while i < columns.len()
            invariant
                i <= columns.len(),
                entries.len() == i,
                forall|j: int|
                    0 <= j < i ==> (#[trigger] entries@[j])@ == (EntryView {
                        data_type: columns@[j]@.data_type,
                        value: ValueView::Column(columns@[j]@),
                    }),
            decreases columns.len() - i,
        {
            let data_type = columns[i].data_type();
            entries.push(BlockEntry { data_type, value: Value::Column(columns[i].clone()) });
            i += 1;
        }
        proof {
            let views = entry_views(entries@);
            assert forall|j: int| 0 <= j < views.len() implies entry_rows_ok(#[trigger] views[j], num_rows as nat) by {
                assert(views[j] == entries@[j]@);
                assert(columns@[j]@.rows.len() == columns@[0]@.rows.len());
            }
        }
        let r = DataBlock::new(entries, num_rows);
        assert(r@.columns =~= columns@.map_values(
            |c: Column| EntryView { data_type: c@.data_type, value: ValueView::Column(c@) },
        ));
        r
    }

    pub fn empty() -> (r: DataBlock)
        ensures
            r@ == (BlockView { columns: Seq::empty(), num_rows: 0, meta: None }),
    {
        let r = DataBlock::new(Vec::new(), 0);
        assert(r@.columns =~= Seq::<EntryView>::empty());
        r
    }

    pub fn empty_with_schema(schema: &DataSchema) -> (r: DataBlock)
        ensures
            r@.num_rows == 0,
            r@.meta is None,
            r@.columns == schema@.map_values(
                |f: FieldView|
                    EntryView {
                        data_type: f.data_type,
                        value: ValueView::Column(ColumnView { data_type: f.data_type, rows: Seq::empty() }),
                    },
            ),
    {
        let mut entries: Vec<BlockEntry> = Vec::new();
        let mut i: usize = 0;
        while i < schema.fields.len()
            invariant
                i <= schema.fields.len(),
                entries.len() == i,
                forall|j: int|
                    0 <= j < i ==> (#[trigger] entries@[j])@ == (EntryView {
                        data_type: schema.fields@[j]@.data_type,
                        value: ValueView::Column(
                            ColumnView { data_type: schema.fields@[j]@.data_type, rows: Seq::empty() },
                        ),
                    }),
            decreases schema.fields.len() - i,
        {
            let data_type = schema.fields[i].data_type.clone();
            let column = Column::empty(schema.fields[i].data_type.clone());
            entries.push(BlockEntry { data_type, value: Value::Column(column) });
            i += 1;
        }
        proof {
            let views = entry_views(entries@);
            assert forall|j: int| 0 <= j < views.len() implies entry_rows_ok(#[trigger] views[j], 0) by {
                assert(views[j] == entries@[j]@);
            }
        }
        let r = DataBlock::new(entries, 0);
        assert(r@.columns =~= schema@.map_values(
            |f: FieldView|
                EntryView {
                    data_type: f.data_type,
                    value: ValueView::Column(ColumnView { data_type: f.data_type, rows: Seq::empty() }),
                },
        ));
        r
    }

    pub fn empty_with_meta(meta: BlockMetaInfoPtr) -> (r: DataBlock)
        ensures
            r@ == (BlockView { columns: Seq::empty(), num_rows: 0, meta: Some(*meta) }),
    {
        let r = DataBlock::new_with_meta(Vec::new(), 0, Some(meta));
        assert(r@.columns =~= Seq::<EntryView>::empty());
        r
    }

    pub fn take_meta(&mut self) -> (r: Option<BlockMetaInfoPtr>)
        ensures
            meta_view(r) == old(self)@.meta,
            final(self)@ == (BlockView { meta: None, ..old(self)@ }),
    {
        self.meta.take()
    }

    pub fn columns(&self) -> (r: &Vec<BlockEntry>)
        ensures
            entry_views(r@) == self@.columns,
    {
        &self.columns
    }

    pub fn columns_mut(&mut self) -> (r: &mut [BlockEntry])
        ensures
            entry_views(r@) == old(self)@.columns,
            final(self)@ == (BlockView { columns: entry_views(final(r)@), ..old(self)@ }),
    {
        self.columns.as_mut_slice()
    }

    pub fn get_by_offset(&self, offset: usize) -> (r: &BlockEntry)
        requires
            offset < self@.columns.len(),
        ensures
            r@ == self@.columns[offset as int],
    {
        &self.columns[offset]
    }

    pub fn num_rows(&self) -> (r: usize)
        ensures
            r == self@.num_rows,
    {
        self.num_rows
    }

    pub fn num_columns(&self) -> (r: usize)
        ensures
            r == self@.columns.len(),
    {
        self.columns.len()
    }

    pub fn is_empty(&self) -> (r: bool)
        ensures
            r == (self@.num_rows == 0),
    {
        self.num_rows == 0
    }

    /// Full empty means no row, no column, no meta.
    pub fn is_full_empty(&self) -> (r: bool)
        ensures
            r == (self@.num_rows == 0 && self@.meta is None && self@.columns.len() == 0),
    {
        self.num_rows == 0 && self.meta.is_none() && self.columns.len() == 0
    }
}

pub open spec fn is_mismatch(columns: Seq<EntryView>, num_rows: nat, e: ErrorCode, i: int) -> bool {
    &&& 0 <= i < columns.len()
    &&& forall|j: int| 0 <= j < i ==> entry_rows_ok(#[trigger] columns[j], num_rows)
    &&& columns[i].value matches ValueView::Column(c) && {
        &&& c.rows.len() != num_rows
        &&& e matches ErrorCode::Internal(m) && m@ == mismatch_text(c, num_rows)
    }
}

/// What is told of a column whose length is not the block's.
pub open spec fn mismatch_text(c: ColumnView, num_rows: nat) -> Seq<char> {
    "DataBlock corrupted, column length mismatch, col rows: "@ + decimal(c.rows.len()) + ", num_rows: "@ + decimal(
        num_rows,
    ) + ", datatype: "@ + type_text(c.data_type)
}

fn mismatch_message(c: &Column, num_rows: usize) -> (r: String)
    ensures
        r@ == mismatch_text(c@, num_rows as nat),
{
    let mut r = String::new();
    r.append("DataBlock corrupted, column length mismatch, col rows: ");
    push_decimal(&mut r, c.len() as u64);
    r.append(", num_rows: ");
    push_decimal(&mut r, num_rows as u64);
    r.append(", datatype: ");
    r.append(c.data_type.to_text().as_str());
    assert(r@ =~= mismatch_text(c@, num_rows as nat));
    r
}

/// The error tells of the first column whose length is not the block's.
pub open spec fn first_mismatch(columns: Seq<EntryView>, num_rows: nat, e: ErrorCode) -> bool {
    exists|i: int| is_mismatch(columns, num_rows, e, i)
}

/// The cuts of `size` rows each that a block holds whole.
pub open spec fn cuts(b: BlockView, size: int, n: nat) -> Seq<BlockView> {
    Seq::new(n, |i: int| slice_view(b, i * size, i * size + size))
}

/// The cuts of a block with what is left over as the last one.
pub open spec fn cuts_and_rest(b: BlockView, size: int) -> Seq<BlockView> {
    let n = b.num_rows / (size as nat);
    if b.num_rows % (size as nat) == 0 {
        cuts(b, size, n)
    } else {
        cuts(b, size, n).push(slice_view(b, n * size, b.num_rows as int))
    }
}

/// How many cuts of `size` rows are made before fewer than `limit` rows are left.
pub open spec fn cuts_until(rows: nat, size: nat, limit: nat) -> nat
    decreases rows,
{
    if size == 0 || rows < limit || rows < size {
        0
    } else {
        1 + cuts_until((rows - size) as nat, size, limit)
    }
}

/// The most rows that are left in one piece: nine fifths of the wanted number, rounded up.
pub open spec fn split_limit(rows_per_block: nat) -> nat {
    (rows_per_block * 9 + 4) / 5
}

proof fn lemma_div_step(i: int, rest: int, total: int, size: int)
    requires
        size > 0,
        total == i * size + rest,
        0 <= rest < size,
        i >= 0,
    ensures
        total / size == i,
        total % size == rest,
{
    vstd::arithmetic::div_mod::lemma_fundamental_div_mod_converse(total, size, i, rest);
}

impl DataBlock {
    pub fn memory_size(&self) -> (r: usize)
        requires
            sizes_total(self@.columns) <= usize::MAX,
        ensures
            r == sizes_total(self@.columns),
    {
        let ghost views = self@.columns;
        let mut total: usize = 0;
        let mut i: usize = 0;
        assert(views.take(0) =~= Seq::<EntryView>::empty());
        while i < self.columns.len()
            invariant
                i <= self.columns.len(),
                views == entry_views(self.columns@),
                total == sizes_total(views.take(i as int)),
                sizes_total(views) <= usize::MAX,
            decreases self.columns.len() - i,
        {
            proof {
                lemma_sizes_prefix(views, i + 1);
                assert(views.take(i + 1).drop_last() =~= views.take(i as int));
                assert(views.take(i + 1).last() == self.columns@[i as int]@);
            }
            total = total + self.columns[i].memory_size();
            i += 1;
        }
        assert(views.take(i as int) =~= views);
        total
    }

    pub fn convert_to_full(&self) -> (r: DataBlock)
        ensures
            r@ == full_view(self@),
    {
        let mut columns: Vec<BlockEntry> = Vec::new();
        let mut i: usize = 0;
        while i < self.columns.len()
            invariant
                i <= self.columns.len(),
                columns.len() == i,
                forall|j: int|
                    0 <= j < i ==> (#[trigger] columns@[j])@ == full_entry(self.columns@[j]@, self.num_rows as nat),
            decreases self.columns.len() - i,
        {
            let entry = &self.columns[i];
            let column = entry.to_column(self.num_rows);
            columns.push(BlockEntry { data_type: entry.data_type.clone(), value: Value::Column(column) });
            i += 1;
        }
        let r = DataBlock { columns, num_rows: self.num_rows, meta: clone_meta(&self.meta) };
        assert(r@.columns =~= full_view(self@).columns);
        r
    }

    pub fn consume_convert_to_full(self) -> (r: DataBlock)
        ensures
            r@ == full_view(self@),
    {
        let mut all = true;
        let mut i: usize = 0;
        while i < self.columns.len()
            invariant
                i <= self.columns.len(),
                all ==> forall|j: int| 0 <= j < i ==> (#[trigger] self.columns@[j])@.value is Column,
            decreases self.columns.len() - i,
        {
            if let Value::Scalar(_) = &self.columns[i].value {
                all = false;
            }
            i += 1;
        }
        if all {
            assert(self@.columns =~= full_view(self@).columns) by {
                assert forall|j: int| 0 <= j < self@.columns.len() implies #[trigger] self@.columns[j] == full_view(self@).columns[j] by {
                    assert(self@.columns[j] == self.columns@[j]@);
                }
            }
            return self;
        }
        self.convert_to_full()
    }

    /// The rows of a range.
    pub fn slice(&self, range: Range<usize>) -> (r: DataBlock)
        requires
            range.end <= self@.num_rows,
            rows_ok(self@.columns, self@.num_rows),
        ensures
            r@ == slice_view(self@, range.start as int, range.end as int),
            rows_ok(r@.columns, r@.num_rows),
            entries_ok(self@.columns) ==> entries_ok(r@.columns),
    {
        let start: usize = range.start;
        let end: usize = range.end;
        let mut columns: Vec<BlockEntry> = Vec::new();
        let mut i: usize = 0;
        while i < self.columns.len()
            invariant
                i <= self.columns.len(),
                columns.len() == i,
                end <= self.num_rows,
                rows_ok(self@.columns, self@.num_rows),
                forall|j: int|
                    0 <= j < i ==> (#[trigger] columns@[j])@ == slice_entry(self.columns@[j]@, start as int, end as int),
            decreases self.columns.len() - i,
        {
            let entry = &self.columns[i];
            assert(self@.columns[i as int] == self.columns@[i as int]@);
            assert(entry_rows_ok(self@.columns[i as int], self@.num_rows));
            let value = match &entry.value {
                Value::Scalar(s) => Value::Scalar(s.clone()),
                Value::Column(c) => Value::Column(c.slice(start, end)),
            };
            columns.push(BlockEntry { data_type: entry.data_type.clone(), value });
            i += 1;
        }
        let num_rows: usize = if start >= end {
            0
        } else {
            end - start
        };
        let r = DataBlock { columns, num_rows, meta: clone_meta(&self.meta) };
        proof {
            assert(r@.columns =~= slice_view(self@, start as int, end as int).columns);
            assert forall|j: int| 0 <= j < r@.columns.len() implies entry_rows_ok(#[trigger] r@.columns[j], r@.num_rows) by {
                assert(entry_rows_ok(self@.columns[j], self@.num_rows));
            }
            if entries_ok(self@.columns) {
                assert forall|j: int| 0 <= j < r@.columns.len() implies entry_ok(#[trigger] r@.columns[j]) by {
                    assert(entry_ok(self@.columns[j]));
                }
            }
        }
        r
    }

    /// Cuts of the given number of rows, and what is left over.
    pub fn split_by_rows(&self, max_rows_per_block: usize) -> (r: (Vec<DataBlock>, Option<DataBlock>))
        requires
            max_rows_per_block > 0,
            rows_ok(self@.columns, self@.num_rows),
        ensures
            block_views(r.0@) == cuts(
                self@,
                max_rows_per_block as int,
                self@.num_rows / (max_rows_per_block as nat),
            ),
            r.1 is Some <==> self@.num_rows % (max_rows_per_block as nat) != 0,
            r.1 matches Some(rest) ==> rest@ == slice_view(
                self@,
                (self@.num_rows / (max_rows_per_block as nat)) * max_rows_per_block,
                self@.num_rows as int,
            ),
    {
        let mut res: Vec<DataBlock> = Vec::new();
        let mut offset: usize = 0;
        let mut remain_rows: usize = self.num_rows;
        let ghost size = max_rows_per_block as int;
        assert(0 * size == 0) by (nonlinear_arith);
        while remain_rows >= max_rows_per_block
            invariant
                offset + remain_rows == self@.num_rows,
                self@.num_rows == self.num_rows,
                max_rows_per_block > 0,
                size == max_rows_per_block,
                rows_ok(self@.columns, self@.num_rows),
                offset == res.len() * size,
                forall|j: int|
                    0 <= j < res.len() ==> (#[trigger] res@[j])@ == slice_view(self@, j * size, j * size + size),
            decreases remain_rows,
        {
            let cut = self.slice(offset..(offset + max_rows_per_block));
            res.push(cut);
            offset += max_rows_per_block;
            remain_rows -= max_rows_per_block;
            assert((res.len() - 1) * size + size == res.len() * size) by (nonlinear_arith);
        }
        proof {
            lemma_div_step(res.len() as int, remain_rows as int, self.num_rows as int, size);
            assert(block_views(res@) =~= cuts(self@, size, self@.num_rows / (max_rows_per_block as nat)));
        }
        let remain = if remain_rows > 0 {
            Some(self.slice(offset..(offset + remain_rows)))
        } else {
            None
        };
        (res, remain)
    }

    /// Cuts of the given number of rows; the last one holds what is left over.
    pub fn split_by_rows_no_tail(&self, max_rows_per_block: usize) -> (r: Vec<DataBlock>)
        requires
            max_rows_per_block > 0,
            rows_ok(self@.columns, self@.num_rows),
        ensures
            block_views(r@) == cuts_and_rest(self@, max_rows_per_block as int),
    {
        let (cut, rest) = self.split_by_rows(max_rows_per_block);
        let mut res = cut;
        let ghost before = block_views(res@);
        if let Some(last) = rest {
            res.push(last);
            assert(block_views(res@) =~= before.push(last@));
        }
        res
    }

    /// Cuts of the given number of rows, made as long as at least nine fifths of that number are
    /// left; what is left then is the last one.
    pub fn split_by_rows_if_needed_no_tail(&self, rows_per_block: usize) -> (r: Vec<DataBlock>)
        requires
            rows_per_block > 0,
            rows_per_block * 9 <= usize::MAX,
            rows_ok(self@.columns, self@.num_rows),
        ensures
            ({
                let n = cuts_until(self@.num_rows, rows_per_block as nat, split_limit(rows_per_block as nat));
                block_views(r@) == cuts(self@, rows_per_block as int, n).push(
                    slice_view(self@, n * rows_per_block, self@.num_rows as int),
                )
            }),
    {
        // The expected number of rows per block is rows_per_block and the least is 0.8 times
        // that, so the most is 1.8 times that.
        let nine: usize = rows_per_block * 9;
        let max_rows_per_block: usize = if nine % 5 == 0 {
            nine / 5
        } else {
            nine / 5 + 1
        };
        let mut res: Vec<DataBlock> = Vec::new();
        let mut offset: usize = 0;
        let mut remain_rows: usize = self.num_rows;
        let ghost size = rows_per_block as int;
        let ghost limit = split_limit(rows_per_block as nat);
        assert(0 * size == 0) by (nonlinear_arith);
        while remain_rows >= max_rows_per_block
            invariant
                offset + remain_rows == self@.num_rows,
                self@.num_rows == self.num_rows,
                rows_per_block > 0,
                size == rows_per_block,
                limit == max_rows_per_block,
                max_rows_per_block >= rows_per_block,
                rows_ok(self@.columns, self@.num_rows),
                offset == res.len() * size,
                cuts_until(self@.num_rows, size as nat, limit) == res.len() + cuts_until(
                    remain_rows as nat,
                    size as nat,
                    limit,
                ),
                forall|j: int|
                    0 <= j < res.len() ==> (#[trigger] res@[j])@ == slice_view(self@, j * size, j * size + size),
            decreases remain_rows,
        {
            let cut = self.slice(offset..(offset + rows_per_block));
            res.push(cut);
            offset += rows_per_block;
            remain_rows -= rows_per_block;
            assert((res.len() - 1) * size + size == res.len() * size) by (nonlinear_arith);
        }
        let ghost n = res.len();
        let last = self.slice(offset..(offset + remain_rows));
        res.push(last);
        assert(block_views(res@) =~= cuts(self@, size, n as nat).push(
            slice_view(self@, n * rows_per_block, self@.num_rows as int),
        ));
        res
    }

    /// Appends the columns of another block.
    pub fn merge_block(&mut self, block: DataBlock)
        requires
            rows_ok(block@.columns, old(self)@.num_rows),
        ensures
            final(self)@ == (BlockView { columns: old(self)@.columns + block@.columns, ..old(self)@ }),
            block_ok(old(self)@) && entries_ok(block@.columns) ==> block_ok(final(self)@),
    {
        let ghost before = self@;
        let mut columns = block.columns;
        let ghost added = entry_views(columns@);
        self.columns.append(&mut columns);
        assert(self@.columns =~= before.columns + added);
    }

    pub fn add_column(&mut self, entry: BlockEntry)
        requires
            rows_ok(old(self)@.columns, old(self)@.num_rows),
            entry_rows_ok(entry@, old(self)@.num_rows),
        ensures
            final(self)@ == (BlockView { columns: old(self)@.columns.push(entry@), ..old(self)@ }),
            block_ok(old(self)@) && entry_ok(entry@) ==> block_ok(final(self)@),
    {
        let ghost before = self@;
        self.columns.push(entry);
        assert(self@.columns =~= before.columns.push(entry@));
    }

    /// Drops the last `num` columns.
    pub fn pop_columns(&mut self, num: usize)
        requires
            num <= old(self)@.columns.len(),
        ensures
            final(self)@ == (BlockView {
                columns: old(self)@.columns.take(old(self)@.columns.len() - num),
                ..old(self)@
            }),
    {
        let ghost before = self@;
        let n: usize = self.columns.len() - num;
        self.columns.truncate(n);
        assert(self@.columns =~= before.columns.take(n as int));
    }

    /// Resort the columns according to the schema.
    pub fn resort(self, src_schema: &DataSchema, dest_schema: &DataSchema) -> (r: Result<DataBlock, ErrorCode>)
        requires
            resortable(self@.columns.len(), src_schema@, dest_schema@),
        ensures
            r is Ok <==> (forall|i: int|
                0 <= i < dest_schema@.len() ==> field_position(src_schema@, (#[trigger] dest_schema@[i]).name) is Some),
            r matches Ok(b) ==> {
                &&& b@.num_rows == self@.num_rows
                &&& b@.meta == self@.meta
                &&& b@.columns == dest_schema@.map_values(
                    |f: FieldView| self@.columns[field_position(src_schema@, f.name)->0],
                )
            },
            r matches Err(e) ==> exists|i: int| is_first_unknown(src_schema@, dest_schema@, e, i),
    {
        let mut columns: Vec<BlockEntry> = Vec::new();
        let ghost dest = dest_schema@;
        let mut i: usize = 0;
        while i < dest_schema.fields.len()
            invariant
                i <= dest_schema.fields.len(),
                columns.len() == i,
                dest == dest_schema@,
                self@.columns == entry_views(self.columns@),
                resortable(self@.columns.len(), src_schema@, dest),
                forall|j: int|
                    0 <= j < i ==> {
                        &&& field_position(src_schema@, (#[trigger] dest[j]).name) is Some
                        &&& columns@[j]@ == self@.columns[field_position(src_schema@, dest[j].name)->0]
                    },
            decreases dest_schema.fields.len() - i,
        {
            assert(dest[i as int] == dest_schema.fields@[i as int]@);
            match src_schema.index_of(&dest_schema.fields[i].name) {
                Some(offset) => {
                    columns.push(self.columns[offset].clone());
                },
                None => {
                    let e = ErrorCode::BadArguments(unknown_field_message(&dest_schema.fields[i].name, src_schema));
                    assert(is_first_unknown(src_schema@, dest, e, i as int));
                    return Err(e);
                },
            }
            i += 1;
        }
        let r = DataBlock { columns, num_rows: self.num_rows, meta: self.meta };
        assert(r@.columns =~= dest.map_values(
            |f: FieldView| self@.columns[field_position(src_schema@, f.name)->0],
        ));
        Ok(r)
    }

    pub fn add_meta(self, meta: Option<BlockMetaInfoPtr>) -> (r: Result<DataBlock, ErrorCode>)
        ensures
            r is Ok <==> self@.meta is None,
            r matches Ok(b) ==> b@ == (BlockView { meta: meta_view(meta), ..self@ }),
            r matches Err(e) ==> (e matches ErrorCode::Internal(m) && m@
                == "Internal error, block meta data is set twice."@),
    {
        if self.meta.is_some() {
            return Err(ErrorCode::Internal("Internal error, block meta data is set twice.".to_owned()));
        }
        Ok(DataBlock { columns: self.columns, num_rows: self.num_rows, meta })
    }

    pub fn replace_meta(&mut self, meta: BlockMetaInfoPtr)
        ensures
            final(self)@ == (BlockView { meta: Some(*meta), ..old(self)@ }),
    {
        self.meta = Some(meta);
    }

    pub fn get_meta(&self) -> (r: Option<&BlockMetaInfoPtr>)
        ensures
            r is Some <==> self@.meta is Some,
            r matches Some(m) ==> self@.meta == Some(**m),
    {
        self.meta.as_ref()
    }

    pub fn get_owned_meta(self) -> (r: Option<BlockMetaInfoPtr>)
        ensures
            meta_view(r) == self@.meta,
    {
        self.meta
    }

    /// A block from columns and the schema that names their types.
    pub fn from_arrow_chunk(arrow_chunk: &Vec<Column>, num_rows: usize, schema: &DataSchema) -> (r: DataBlock)
        requires
            forall|i: int| 0 <= i < arrow_chunk@.len() ==> (#[trigger] arrow_chunk@[i])@.rows.len() == num_rows,
        ensures
            r@.num_rows == num_rows,
            r@.meta is None,
            r@.columns == Seq::new(
                if schema@.len() <= arrow_chunk@.len() {
                    schema@.len()
                } else {
                    arrow_chunk@.len()
                },
                |i: int| EntryView { data_type: schema@[i].data_type, value: ValueView::Column(arrow_chunk@[i]@) },
            ),
    {
        let mut entries: Vec<BlockEntry> = Vec::new();
        let ghost fields = schema@;
        let mut i: usize = 0;
        while i < schema.fields.len() && i < arrow_chunk.len()
            invariant
                i <= schema.fields.len(),
                i <= arrow_chunk.len(),
                fields == schema@,
                entries.len() == i,
                forall|j: int|
                    0 <= j < i ==> (#[trigger] entries@[j])@ == (EntryView {
                        data_type: fields[j].data_type,
                        value: ValueView::Column(arrow_chunk@[j]@),
                    }),
            decreases schema.fields.len() - i,
        {
            assert(fields[i as int] == schema.fields@[i as int]@);
            entries.push(
                BlockEntry {
                    data_type: schema.fields[i].data_type.clone(),
                    value: Value::Column(arrow_chunk[i].clone()),
                },
            );
            i += 1;
        }
        proof {
            let views = entry_views(entries@);
            assert forall|j: int| 0 <= j < views.len() implies entry_rows_ok(#[trigger] views[j], num_rows as nat) by {
                assert(views[j] == entries@[j]@);
                assert(arrow_chunk@[j]@.rows.len() == num_rows);
            }
        }
        DataBlock::new(entries, num_rows)
    }

    /// A block in which each field with a default holds it for all rows, and the others hold the
    /// columns of the chunk in order.
    pub fn create_with_default_value_and_chunk(
        schema: &DataSchema,
        chunk: &Vec<Column>,
        default_vals: &Vec<Option<Scalar>>,
        num_rows: usize,
    ) -> (r: DataBlock)
        requires
            default_vals@.len() <= schema@.len(),
            missing(default_vals@, default_vals@.len() as int) <= chunk@.len(),
            forall|i: int| 0 <= i < chunk@.len() ==> (#[trigger] chunk@[i])@.rows.len() == num_rows,
        ensures
            r@.num_rows == num_rows,
            r@.meta is None,
            r@.columns == Seq::new(
                default_vals@.len(),
                |i: int| defaulted(schema@, chunk@, default_vals@, i),
            ),
    {
        let mut columns: Vec<BlockEntry> = Vec::new();
        let ghost fields = schema@;
        let mut chunk_idx: usize = 0;
        let mut i: usize = 0;
        while i < default_vals.len()
            invariant
                i <= default_vals.len(),
                default_vals.len() <= schema.fields.len(),
                fields == schema@,
                columns.len() == i,
                chunk_idx == missing(default_vals@, i as int),
                missing(default_vals@, default_vals@.len() as int) <= chunk@.len(),
                forall|k: int| 0 <= k < chunk@.len() ==> (#[trigger] chunk@[k])@.rows.len() == num_rows,
                forall|j: int|
                    0 <= j < i ==> {
                        &&& (#[trigger] columns@[j])@ == defaulted(fields, chunk@, default_vals@, j)
                        &&& entry_rows_ok(columns@[j]@, num_rows as nat)
                    },
            decreases default_vals.len() - i,
        {
            proof {
                lemma_missing_monotonic(default_vals@, i + 1, default_vals@.len() as int);
                assert(fields[i as int] == schema.fields@[i as int]@);
            }
            let data_type = schema.fields[i].data_type.clone();
            let value = match &default_vals[i] {
                Some(default_val) => Value::Scalar(default_val.clone()),
                None => {
                    assert(chunk@[chunk_idx as int]@.rows.len() == num_rows);
                    assert(chunk_idx < chunk.len());
                    let column = chunk[chunk_idx].clone();
                    chunk_idx += 1;
                    Value::Column(column)
                },
            };
            columns.push(BlockEntry { data_type, value });
            i += 1;
        }
        proof {
            let views = entry_views(columns@);
            assert forall|j: int| 0 <= j < views.len() implies entry_rows_ok(#[trigger] views[j], num_rows as nat) by {
                assert(views[j] == columns@[j]@);
            }
        }
        let r = DataBlock::new(columns, num_rows);
        assert(r@.columns =~= Seq::new(
            default_vals@.len(),
            |k: int| defaulted(fields, chunk@, default_vals@, k),
        ));
        r
    }

    /// A block in which each field holds its default for all rows.
    pub fn create_with_default_value(schema: &DataSchema, default_vals: &Vec<Scalar>, num_rows: usize) -> (r: DataBlock)
        requires
            default_vals@.len() <= schema@.len(),
        ensures
            r@.num_rows == num_rows,
            r@.meta is None,
            r@.columns == Seq::new(
                default_vals@.len(),
                |i: int| EntryView { data_type: schema@[i].data_type, value: ValueView::Scalar(default_vals@[i]@) },
            ),
    {
        let mut default_opt_vals: Vec<Option<Scalar>> = Vec::new();
        let mut i: usize = 0;
        while i < default_vals.len()
            invariant
                i <= default_vals.len(),
                default_opt_vals.len() == i,
                forall|j: int|
                    0 <= j < i ==> ((#[trigger] default_opt_vals@[j]) matches Some(s) && s@ == default_vals@[j]@),
            decreases default_vals.len() - i,
        {
            default_opt_vals.push(Some(default_vals[i].clone()));
            i += 1;
        }
        proof {
            lemma_none_missing(default_opt_vals@, default_opt_vals@.len() as int);
        }
        let r = DataBlock::create_with_default_value_and_chunk(schema, &Vec::new(), &default_opt_vals, num_rows);
        assert(r@.columns =~= Seq::new(
            default_vals@.len(),
            |k: int| EntryView { data_type: schema@[k].data_type, value: ValueView::Scalar(default_vals@[k]@) },
        )) by {
            assert forall|k: int| 0 <= k < default_vals@.len() implies #[trigger] r@.columns[k] == (EntryView {
                data_type: schema@[k].data_type,
                value: ValueView::Scalar(default_vals@[k]@),
            }) by {
                assert(default_opt_vals@[k] is Some);
            }
        }
        r
    }

    /// A block in which each field that the given block holds comes from there, in order, and
    /// each other field holds its default for all rows.
    pub fn create_with_default_value_and_block(
        schema: &TableSchema,
        data_block: &DataBlock,
        block_column_ids: &HashSet<u32>,
        default_vals: &Vec<Scalar>,
    ) -> (r: DataBlock)
        requires
            rows_ok(data_block@.columns, data_block@.num_rows),
            forall|i: int|
                0 <= i < schema.fields@.len() && !block_column_ids@.contains((#[trigger] schema.fields@[i]).column_id) ==> i
                    < default_vals@.len(),
            present(schema.column_ids(), block_column_ids@, schema.fields@.len() as int) <= data_block@.columns.len(),
        ensures
            r@.num_rows == data_block@.num_rows,
            r@.meta is None,
            r@.columns == Seq::new(
                schema.fields@.len(),
                |i: int|
                    if block_column_ids@.contains(schema.fields@[i].column_id) {
                        data_block@.columns[present(schema.column_ids(), block_column_ids@, i)]
                    } else {
                        EntryView {
                            data_type: schema.fields@[i].data_type@,
                            value: ValueView::Scalar(default_vals@[i]@),
                        }
                    },
            ),
    {
        broadcast use vstd::std_specs::hash::group_hash_axioms;

        let num_rows: usize = data_block.num_rows();
        let mut columns: Vec<BlockEntry> = Vec::new();
        let ghost ids = schema.column_ids();
        let mut data_block_columns_idx: usize = 0;
        let mut i: usize = 0;
        while i < schema.fields.len()
            invariant
                i <= schema.fields.len(),
                forall|k: int|
                    0 <= k < schema.fields@.len() && !block_column_ids@.contains((#[trigger] schema.fields@[k]).column_id)
                        ==> k < default_vals@.len(),
                ids == schema.column_ids(),
                num_rows == data_block@.num_rows,
                rows_ok(data_block@.columns, data_block@.num_rows),
                columns.len() == i,
                data_block_columns_idx == present(ids, block_column_ids@, i as int),
                present(ids, block_column_ids@, schema.fields@.len() as int) <= data_block@.columns.len(),
                data_block@.columns == entry_views(data_block.columns@),
                forall|j: int|
                    0 <= j < i ==> {
                        &&& (#[trigger] columns@[j])@ == if block_column_ids@.contains(schema.fields@[j].column_id) {
                            data_block@.columns[present(ids, block_column_ids@, j)]
                        } else {
                            EntryView {
                                data_type: schema.fields@[j].data_type@,
                                value: ValueView::Scalar(default_vals@[j]@),
                            }
                        }
                        &&& entry_rows_ok(columns@[j]@, num_rows as nat)
                    },
            decreases schema.fields.len() - i,
        {
            proof {
                lemma_present_monotonic(ids, block_column_ids@, i + 1, schema.fields@.len() as int);
                assert(ids[i as int] == schema.fields@[i as int].column_id);
            }
            let field = &schema.fields[i];
            let column = if !block_column_ids.contains(&field.column_id) {
                BlockEntry { data_type: field.data_type.clone(), value: Value::Scalar(default_vals[i].clone()) }
            } else {
                assert(entry_rows_ok(data_block@.columns[data_block_columns_idx as int], num_rows as nat));
                assert(data_block_columns_idx < data_block.columns.len());
                let entry = data_block.columns[data_block_columns_idx].clone();
                data_block_columns_idx += 1;
                entry
            };
            columns.push(column);
            i += 1;
        }
        proof {
            let views = entry_views(columns@);
            assert forall|j: int| 0 <= j < views.len() implies entry_rows_ok(#[trigger] views[j], num_rows as nat) by {
                assert(views[j] == columns@[j]@);
            }
        }
        let r = DataBlock::new(columns, num_rows);
        assert(r@.columns =~= Seq::new(
            schema.fields@.len(),
            |k: int|
                if block_column_ids@.contains(schema.fields@[k].column_id) {
                    data_block@.columns[present(ids, block_column_ids@, k)]
                } else {
                    EntryView {
                        data_type: schema.fields@[k].data_type@,
                        value: ValueView::Scalar(default_vals@[k]@),
                    }
                },
        ));
        r
    }

    /// Keeps the columns at the given positions.
    pub fn project(self, projections: &HashSet<usize>) -> (r: DataBlock)
        ensures
            r@ == (BlockView {
                columns: kept(self@.columns, |i: int| projections@.contains(i as usize)),
                ..self@
            }),
    {
        proof {
            lemma_kept_same(
                self@.columns,
                |i: int| projections@.contains(i as usize),
                |i: int| projections@.contains(i as usize) || i >= self@.columns.len() - 0,
            );
        }
        self.project_with_agg_index(projections, 0)
    }

    /// Keeps the columns at the given positions and the last `num_evals` columns.
    pub fn project_with_agg_index(self, projections: &HashSet<usize>, num_evals: usize) -> (r: DataBlock)
        requires
            num_evals <= self@.columns.len(),
        ensures
            r@ == (BlockView {
                columns: kept(
                    self@.columns,
                    |i: int| projections@.contains(i as usize) || i >= self@.columns.len() - num_evals,
                ),
                ..self@
            }),
    {
        broadcast use vstd::std_specs::hash::group_hash_axioms;

        let mut columns: Vec<BlockEntry> = Vec::new();
        let ghost all = self@.columns;
        let eval_offset: usize = self.columns.len() - num_evals;
        let ghost keep = |i: int| projections@.contains(i as usize) || i >= all.len() - num_evals;
        let mut index: usize = 0;
        assert(all.take(0) =~= Seq::<EntryView>::empty());
        assert(entry_views(columns@) =~= Seq::<EntryView>::empty());
        while index < self.columns.len()
            invariant
                index <= self.columns.len(),
                all == entry_views(self.columns@),
                eval_offset == all.len() - num_evals,
                keep == (|i: int| projections@.contains(i as usize) || i >= all.len() - num_evals),
                entry_views(columns@) == kept(all.take(index as int), keep),
            decreases self.columns.len() - index,
        {
            let ghost before = columns@;
            proof {
                assert(all.take(index + 1).drop_last() =~= all.take(index as int));
                assert(all.take(index + 1).last() == self.columns@[index as int]@);
            }
            if projections.contains(&index) || index >= eval_offset {
                columns.push(self.columns[index].clone());
                assert(entry_views(columns@) =~= entry_views(before).push(all[index as int]));
            }
            index += 1;
        }
        assert(all.take(index as int) =~= all);
        DataBlock { columns, num_rows: self.num_rows, meta: self.meta }
    }

    pub fn get_last_column(&self) -> (r: &Column)
        requires
            self@.columns.len() > 0,
            self@.columns.last().value is Column,
        ensures
            self@.columns.last().value == ValueView::Column(r@),
    {
        assert(self@.columns.last() == self.columns@.last()@);
        match &self.columns[self.columns.len() - 1].value {
            Value::Column(c) => c,
            Value::Scalar(_) => {
                assert(false);
                vstd::pervasive::unreached()
            },
        }
    }
}

impl Clone for DataBlock {
    fn clone(&self) -> (r: DataBlock)
        ensures
            r@ == self@,
    {
        let mut columns: Vec<BlockEntry> = Vec::new();
        let mut i: usize = 0;
        while i < self.columns.len()
            invariant
                i <= self.columns.len(),
                columns.len() == i,
                forall|j: int| 0 <= j < i ==> (#[trigger] columns@[j])@ == self.columns@[j]@,
            decreases self.columns.len() - i,
        {
            columns.push(self.columns[i].clone());
            i += 1;
        }
        let r = DataBlock { columns, num_rows: self.num_rows, meta: clone_meta(&self.meta) };
        assert(r@.columns =~= self@.columns);
        r
    }
}

pub open spec fn is_first_unknown(src: Seq<FieldView>, dest: Seq<FieldView>, e: ErrorCode, i: int) -> bool {
    &&& 0 <= i < dest.len()
    &&& forall|j: int| 0 <= j < i ==> field_position(src, (#[trigger] dest[j]).name) is Some
    &&& field_position(src, dest[i].name) is None
    &&& e matches ErrorCode::BadArguments(m) && m@ == unknown_field_text(dest[i].name, src)
}

/// What is told of a field that a schema does not have.
pub open spec fn unknown_field_text(name: Seq<char>, src: Seq<FieldView>) -> Seq<char> {
    "Unable to get field named \""@ + name + "\". Valid fields: ["@ + separated(
        src.map_values(|f: FieldView| quoted(f.name)),
        ", "@,
    ) + "]"@
}

fn unknown_field_message(name: &String, src: &DataSchema) -> (r: String)
    ensures
        r@ == unknown_field_text(name@, src@),
{
    let mut names: Vec<String> = Vec::new();
    let ghost fields = src@;
    let mut i: usize = 0;
    while i < src.fields.len()
        invariant
            i <= src.fields.len(),
            names.len() == i,
            fields == src@,
            forall|j: int| 0 <= j < i ==> (#[trigger] names@[j])@ == quoted(fields[j].name),
        decreases src.fields.len() - i,
    {
        assert(fields[i as int] == src.fields@[i as int]@);
        names.push(quote(src.fields[i].name.as_str()));
        i += 1;
    }
    assert(texts(names@) =~= fields.map_values(|f: FieldView| quoted(f.name)));
    let mut r = String::new();
    r.append("Unable to get field named \"");
    r.append(name.as_str());
    r.append("\". Valid fields: [");
    r.append(join(&names, ", ").as_str());
    r.append("]");
    assert(r@ =~= unknown_field_text(name@, src@));
    r
}

/// The columns of a block are there for the fields up to the first that the schema does not have.
pub open spec fn resortable(columns: nat, src: Seq<FieldView>, dest: Seq<FieldView>) -> bool {
    forall|i: int|
        #![trigger dest[i]]
        0 <= i < dest.len() && (forall|j: int| 0 <= j < i ==> field_position(src, (#[trigger] dest[j]).name) is Some)
            ==> (field_position(src, dest[i].name) matches Some(p) ==> p < columns)
}

proof fn lemma_kept_same<A>(s: Seq<A>, p: spec_fn(int) -> bool, q: spec_fn(int) -> bool)
    requires
        forall|i: int| 0 <= i < s.len() ==> #[trigger] p(i) == q(i),
    ensures
        kept(s, p) == kept(s, q),
    decreases s.len(),
{
    if s.len() > 0 {
        assert(p(s.len() - 1) == q(s.len() - 1));
        lemma_kept_same(s.drop_last(), p, q);
    }
}

proof fn lemma_missing_monotonic(defaults: Seq<Option<Scalar>>, a: int, b: int)
    requires
        a <= b,
    ensures
        missing(defaults, a) <= missing(defaults, b),
        0 <= missing(defaults, a),
    decreases b - a, b,
{
    if a < b {
        lemma_missing_monotonic(defaults, a, b - 1);
    } else if a > 0 {
        lemma_missing_monotonic(defaults, a - 1, a - 1);
    }
}

proof fn lemma_none_missing(defaults: Seq<Option<Scalar>>, n: int)
    requires
        n <= defaults.len(),
        forall|j: int| 0 <= j < defaults.len() ==> (#[trigger] defaults[j]) is Some,
    ensures
        missing(defaults, n) == 0,
    decreases n,
{
    if n > 0 {
        lemma_none_missing(defaults, n - 1);
    }
}

proof fn lemma_present_monotonic(ids: Seq<u32>, known: Set<u32>, a: int, b: int)
    requires
        a <= b,
    ensures
        present(ids, known, a) <= present(ids, known, b),
        0 <= present(ids, known, a),
    decreases b - a, b,
{
    if a < b {
        lemma_present_monotonic(ids, known, a, b - 1);
    } else if a > 0 {
        lemma_present_monotonic(ids, known, a - 1, a - 1);
    }
}

/// The bytes of the values of an entry.
pub open spec fn entry_size(e: EntryView) -> nat {
    match e.value {
        ValueView::Scalar(s) => scalar_size(s),
        ValueView::Column(c) => rows_size(c.rows),
    }
}

pub open spec fn sizes_total(columns: Seq<EntryView>) -> nat
    decreases columns.len(),
{
    if columns.len() == 0 {
        0
    } else {
        sizes_total(columns.drop_last()) + entry_size(columns.last())
    }
}

proof fn lemma_sizes_prefix(columns: Seq<EntryView>, n: int)
    requires
        0 <= n <= columns.len(),
    ensures
        sizes_total(columns.take(n)) <= sizes_total(columns),
    decreases columns.len() - n,
{
    if n < columns.len() {
        lemma_sizes_prefix(columns, n + 1);
        assert(columns.take(n + 1).drop_last() =~= columns.take(n));
    } else {
        assert(columns.take(n) =~= columns);
    }
}

impl BlockEntry {
    pub fn memory_size(&self) -> (r: usize)
        requires
            entry_size(self@) <= usize::MAX,
        ensures
            r == entry_size(self@),
    {
        match &self.value {
            Value::Scalar(s) => s.memory_size(),
            Value::Column(c) => c.memory_size(),
        }
    }
}

/// The value of a column in a row.
pub open spec fn value_at(b: BlockView, column: int, row: int) -> ScalarView {
    full_column(b.columns[column], b.num_rows).rows[row]
}

/// A slice of a slice is a slice.
pub proof fn slices_nest(b: BlockView, start: int, end: int, inner_start: int, inner_end: int)
    requires
        rows_ok(b.columns, b.num_rows),
        0 <= start <= end <= b.num_rows,
        0 <= inner_start <= inner_end <= end - start,
    ensures
        slice_view(slice_view(b, start, end), inner_start, inner_end) == slice_view(
            b,
            start + inner_start,
            start + inner_end,
        ),
{
    let outer = slice_view(b, start, end);
    let inner = slice_view(outer, inner_start, inner_end);
    let direct = slice_view(b, start + inner_start, start + inner_end);
    assert forall|c: int| 0 <= c < b.columns.len() implies inner.columns[c] == direct.columns[c] by {
        assert(entry_rows_ok(b.columns[c], b.num_rows));
        match b.columns[c].value {
            ValueView::Column(col) => {
                assert(rows_in(rows_in(col.rows, start, end), inner_start, inner_end) =~= rows_in(
                    col.rows,
                    start + inner_start,
                    start + inner_end,
                ));
            },
            ValueView::Scalar(_) => {},
        }
    }
    assert(inner.columns =~= direct.columns);
}

/// A slice holds the rows that it is cut from.
pub proof fn slice_keeps_values(b: BlockView, start: int, end: int, column: int, row: int)
    requires
        rows_ok(b.columns, b.num_rows),
        0 <= start <= end <= b.num_rows,
        0 <= column < b.columns.len(),
        0 <= row < end - start,
    ensures
        value_at(slice_view(b, start, end), column, row) == value_at(b, column, start + row),
{
    assert(entry_rows_ok(b.columns[column], b.num_rows));
}

/// Blocks that are split hold every row once: row `i` of the whole is row `i % size` of piece
/// `i / size`, and the pieces have no rows more than the whole.
pub proof fn pieces_hold_every_row(b: BlockView, size: int, column: int, row: int)
    requires
        size > 0,
        rows_ok(b.columns, b.num_rows),
        0 <= column < b.columns.len(),
        0 <= row < b.num_rows,
    ensures
        ({
            let pieces = cuts_and_rest(b, size);
            let piece = row / size;
            &&& 0 <= piece < pieces.len()
            &&& row % size < pieces[piece].num_rows
            &&& value_at(pieces[piece], column, row % size) == value_at(b, column, row)
            &&& rows_total(pieces) == b.num_rows
        }),
{
    let pieces = cuts_and_rest(b, size);
    let n = (b.num_rows as int) / size;
    let rest = (b.num_rows as int) % size;
    vstd::arithmetic::div_mod::lemma_fundamental_div_mod(b.num_rows as int, size);
    vstd::arithmetic::div_mod::lemma_fundamental_div_mod(row, size);
    let piece = row / size;
    let offset = row % size;
    assert(n * size == size * n) by (nonlinear_arith);
    assert(piece * size == size * piece) by (nonlinear_arith);
    assert(0 <= piece <= n && (rest == 0 ==> piece < n) && (piece == n ==> offset < rest)) by (nonlinear_arith)
        requires
            size > 0,
            b.num_rows == size * n + rest,
            0 <= rest < size,
            row == size * piece + offset,
            0 <= offset < size,
            0 <= row < b.num_rows,
    ;
    assert(piece < n ==> piece * size + size <= n * size) by (nonlinear_arith)
        requires
            size > 0,
    ;
    assert(0 <= n * size && 0 <= piece * size) by (nonlinear_arith)
        requires
            size > 0,
            0 <= piece <= n,
    ;
    if piece < n {
        assert(pieces[piece] == slice_view(b, piece * size, piece * size + size));
        slice_keeps_values(b, piece * size, piece * size + size, column, offset);
    } else {
        assert(pieces[piece] == slice_view(b, n * size, b.num_rows as int));
        slice_keeps_values(b, n * size, b.num_rows as int, column, offset);
    }
    lemma_cuts_total(b, size, n as nat);
    if rest != 0 {
        assert(pieces.drop_last() =~= cuts(b, size, n as nat));
        assert(pieces.last().num_rows == rest);
    }
}

/// How many rows blocks have together.
pub open spec fn rows_total(blocks: Seq<BlockView>) -> nat
    decreases blocks.len(),
{
    if blocks.len() == 0 {
        0
    } else {
        rows_total(blocks.drop_last()) + blocks.last().num_rows
    }
}

proof fn lemma_cuts_total(b: BlockView, size: int, n: nat)
    requires
        size > 0,
    ensures
        rows_total(cuts(b, size, n)) == n * size,
    decreases n,
{
    if n > 0 {
        lemma_cuts_total(b, size, (n - 1) as nat);
        assert(cuts(b, size, n).drop_last() =~= cuts(b, size, (n - 1) as nat));
        assert((n - 1) * size + size == n * size) by (nonlinear_arith);
    } else {
        assert(0 * size == 0) by (nonlinear_arith);
    }
}

/// Making a block full changes no value, and a full block stays as it is.
pub proof fn full_blocks_are_the_same(b: BlockView)
    requires
        rows_ok(b.columns, b.num_rows),
    ensures
        full_view(full_view(b)) == full_view(b),
        rows_ok(full_view(b).columns, b.num_rows),
        forall|c: int, r: int|
            0 <= c < b.columns.len() && 0 <= r < b.num_rows ==> #[trigger] value_at(full_view(b), c, r) == value_at(
                b,
                c,
                r,
            ),
{
    let full = full_view(b);
    assert forall|i: int| 0 <= i < full.columns.len() implies entry_rows_ok(#[trigger] full.columns[i], b.num_rows) by {
        assert(entry_rows_ok(b.columns[i], b.num_rows));
    }
    assert(full_view(full).columns =~= full.columns);
}

/// Columns that were added are popped again.
pub proof fn added_columns_are_popped(b: BlockView, added: Seq<EntryView>)
    ensures
        (b.columns + added).take((b.columns + added).len() - added.len()) == b.columns,
{
    assert((b.columns + added).take((b.columns + added).len() - added.len()) =~= b.columns);
}

/// A value that stands for a whole column is in every row of it.
pub proof fn a_scalar_is_in_every_row(e: EntryView, num_rows: nat)
    requires
        entry_rows_ok(e, num_rows),
    ensures
        full_column(e, num_rows).rows.len() == num_rows,
        match e.value {
            ValueView::Scalar(s) => forall|i: int| 0 <= i < num_rows ==> #[trigger] full_column(e, num_rows).rows[i] == s,
            ValueView::Column(c) => full_column(e, num_rows).rows == c.rows,
        },
{
}

/// What is kept of a list are the elements at the places that are asked for, in their order, and
/// nothing else.
pub proof fn the_places_asked_for_are_kept<A>(s: Seq<A>, keep: spec_fn(int) -> bool)
    ensures
        exists|places: Seq<int>|
            {
                &&& #[trigger] are_the_places(places, s.len() as int, keep)
                &&& kept(s, keep).len() == places.len()
                &&& forall|j: int| 0 <= j < places.len() ==> #[trigger] kept(s, keep)[j] == s[places[j]]
            },
{
    numbers_are_the_places(s.len(), keep);
    lemma_kept_places(s, keep);
}

proof fn lemma_kept_places<A>(s: Seq<A>, keep: spec_fn(int) -> bool)
    ensures
        kept(s, keep).len() == numbers_where(s.len(), keep).len(),
        forall|j: int|
            0 <= j < kept(s, keep).len() ==> #[trigger] kept(s, keep)[j] == s[numbers_where(s.len(), keep)[j]],
    decreases s.len(),
{
    if s.len() > 0 {
        let before = s.drop_last();
        lemma_kept_places(before, keep);
        lemma_numbers_below(before.len(), keep);
        let places = numbers_where(before.len(), keep);
        assert forall|j: int| 0 <= j < kept(s, keep).len() implies #[trigger] kept(s, keep)[j] == s[numbers_where(
            s.len(),
            keep,
        )[j]] by {
            if j < places.len() {
                assert(kept(s, keep)[j] == kept(before, keep)[j]);
                assert(numbers_where(s.len(), keep)[j] == places[j]);
                assert(before[places[j]] == s[places[j]]);
            }
        }
    }
}

/// A block that is split where it is needed: pieces of the rows that are asked for are cut off
/// while nine fifths of them or more are left, and no longer. So the last piece is at least four
/// fifths and less than nine fifths of that, but for a block that was smaller.
pub proof fn a_block_is_split_while_it_is_large(rows: nat, size: nat)
    requires
        size > 0,
    ensures
        ({
            let n = cuts_until(rows, size, split_limit(size));
            let rest = rows - n * size;
            &&& 0 <= rest
            &&& 5 * rest < 9 * size
            &&& n > 0 ==> 5 * (rest + size) >= 9 * size
            &&& 5 * rows < 9 * size <==> n == 0
        }),
    decreases rows,
{
    let limit = split_limit(size);
    assert(5 * limit >= 9 * size && 5 * limit <= 9 * size + 4);
    let n = cuts_until(rows, size, limit);
    if rows >= limit && rows >= size {
        a_block_is_split_while_it_is_large((rows - size) as nat, size);
        let m = cuts_until((rows - size) as nat, size, limit);
        assert(n * size == m * size + size) by (nonlinear_arith)
            requires
                n == m + 1,
        ;
        if m == 0 {
            assert(m * size == 0) by (nonlinear_arith)
                requires
                    m == 0,
            ;
        }
    } else {
        assert(n == 0);
        assert(n * size == 0) by (nonlinear_arith)
            requires
                n == 0,
        ;
    }
}

/// The number of columns before a place that have no default is the number of places without one:
/// a column without a default is the next one of those that are given.
pub proof fn columns_without_a_default_are_taken_in_turn(defaults: Seq<Option<Scalar>>, i: int)
    requires
        0 <= i <= defaults.len(),
    ensures
        missing(defaults, i) == defaults.take(i).filter(|d: Option<Scalar>| d is None).len(),
    decreases i,
{
    reveal(Seq::filter);
    if i > 0 {
        columns_without_a_default_are_taken_in_turn(defaults, i - 1);
        assert(defaults.take(i).drop_last() =~= defaults.take(i - 1));
    }
}

/// The number of columns before a place that a block has is the number of ids that are its own: a
/// column that a block has is the next one of its columns.
pub proof fn columns_of_a_block_are_taken_in_turn(ids: Seq<u32>, known: Set<u32>, i: int)
    requires
        0 <= i <= ids.len(),
    ensures
        present(ids, known, i) == ids.take(i).filter(|id: u32| known.contains(id)).len(),
    decreases i,
{
    reveal(Seq::filter);
    if i > 0 {
        columns_of_a_block_are_taken_in_turn(ids, known, i - 1);
        assert(ids.take(i).drop_last() =~= ids.take(i - 1));
    }
}

/// A column that is no longer nullable keeps its values; one that was not nullable stays as it is.
pub proof fn values_stay_without_nullable(e: EntryView)
    ensures
        e.value is Scalar ==> entry_without_nullable(e) == e,
        e.value matches ValueView::Column(c) ==> (if c.data_type is Nullable {
            entry_without_nullable(e).value matches ValueView::Column(d) && {
                &&& c.data_type == TypeView::Nullable(Box::new(d.data_type))
                &&& d.rows.len() == c.rows.len()
                &&& forall|i: int|
                    0 <= i < c.rows.len() && !(c.rows[i] is Null || c.rows[i] is NullOver) ==> #[trigger] d.rows[i]
                        == c.rows[i]
            }
        } else {
            entry_without_nullable(e) == e
        }),
{
}

/// What a block carries is known by its kind and by all that it says.
pub proof fn a_meta_is_known_again(a: SortSpillMetaWithParams, b: SortSpillMetaWithParams, plain: SortSpillMeta)
    ensures
        a.erased() == b.erased() <==> a.batch_size == b.batch_size && a.num_merge == b.num_merge,
        a.erased() != plain.erased(),
        plain.erased() == BlockMeta::SortSpill,
        a.erased() == (BlockMeta::SortSpillWithParams { batch_size: a.batch_size, num_merge: a.num_merge }),
{
}

/// A block is refused for the first of its columns that has another number of rows than the block,
/// and told how many it has; a single value for all rows is never too short.
pub proof fn the_first_column_of_another_length_is_named(columns: Seq<EntryView>, num_rows: nat, e: ErrorCode)
    requires
        first_mismatch(columns, num_rows, e),
    ensures
        exists|i: int|
            #![trigger columns[i]]
            {
                &&& 0 <= i < columns.len()
                &&& forall|j: int|
                    0 <= j < i ==> ((#[trigger] columns[j]).value matches ValueView::Column(c) ==> c.rows.len() == num_rows)
                &&& columns[i].value matches ValueView::Column(c) && c.rows.len() != num_rows && e is Internal
                    && e->Internal_0@ == "DataBlock corrupted, column length mismatch, col rows: "@ + decimal(c.rows.len())
                    + ", num_rows: "@ + decimal(num_rows) + ", datatype: "@ + type_text(c.data_type)
            },
{
    let i = choose|i: int| is_mismatch(columns, num_rows, e, i);
    assert forall|j: int| 0 <= j < i implies ((#[trigger] columns[j]).value matches ValueView::Column(c) ==> c.rows.len()
        == num_rows) by {
        assert(entry_rows_ok(columns[j], num_rows));
    }
    assert(columns[i].value is Column);
}

}
