//! Rows that can be ordered, and how columns are turned into them.

use vstd::prelude::*;

use crate::block::entry_rows_ok;
use crate::block::entry_views;
use crate::block::full_column;
use crate::block::BlockEntry;
use crate::block::EntryView;
use crate::error::ErrorCode;
use crate::order::bool_order;
use crate::order::bytes_at_most;
use crate::order::bytes_order;
use crate::order::compare_bytes;
use crate::order::compare_i128;
use crate::order::int_order;
use crate::order::number_rank;
use crate::order::rank;
use crate::order::strings_are_ordered_by_their_bytes;
use crate::order::value_at_most;
use crate::order::Order;
use crate::schema::DataSchema;
use crate::types::clone_bytes;
use crate::types::column_ok;
use crate::types::has_type;
use crate::types::Column;
use crate::types::ColumnView;
use crate::types::NumberScalar;
use crate::types::Scalar;
use crate::types::ScalarView;
use crate::types::TypeView;

verus! {

/// By which column to sort, and how.
#[derive(Clone, Copy, Debug, PartialEq, Eq, Structural)]
pub struct SortColumnDescription {
    pub offset: usize,
    pub asc: bool,
    pub nulls_first: bool,
}

pub open spec fn flip(o: Order) -> Order {
    match o {
        Order::Less => Order::Greater,
        Order::Equal => Order::Equal,
        Order::Greater => Order::Less,
    }
}

fn flipped(o: Order) -> (r: Order)
    ensures
        r == flip(o),
{
    match o {
        Order::Less => Order::Greater,
        Order::Equal => Order::Equal,
        Order::Greater => Order::Less,
    }
}

/// Rows in a total order.
pub trait Rows: Sized {
    /// What a row is ordered by.
    type Key;

    spec fn keys(&self) -> Seq<Self::Key>;

    spec fn key_order(a: Self::Key, b: Self::Key) -> Order;

    /// The rows as a column that can be kept with a block.
    spec fn order_column(&self) -> ColumnView;

    /// The order is total.
    proof fn order_laws(a: Self::Key, b: Self::Key, c: Self::Key)
        ensures
            Self::key_order(a, a) == Order::Equal,
            Self::key_order(b, a) == flip(Self::key_order(a, b)),
            Self::key_order(a, b) != Order::Greater && Self::key_order(b, c) != Order::Greater
                ==> Self::key_order(a, c) != Order::Greater,
    ;

    fn len(&self) -> (r: usize)
        ensures
            r == self.keys().len(),
    ;

    fn compare_rows(&self, i: usize, other: &Self, j: usize) -> (r: Order)
        requires
            i < self.keys().len(),
            j < other.keys().len(),
        ensures
            r == Self::key_order(self.keys()[i as int], other.keys()[j as int]),
    ;

    fn to_column(&self) -> (r: Column)
        ensures
            r@ == self.order_column(),
            r@.rows.len() == self.keys().len(),
    ;
}

/// Turns the columns that a block is sorted by into rows.
pub trait RowConverter<R: Rows>: Sized {
    /// Whether the converter can be made for the sort.
    spec fn creatable(sort_columns: Seq<SortColumnDescription>) -> bool;

    /// Whether the converter knows what to do with the columns.
    spec fn convertible(&self, columns: Seq<EntryView>, num_rows: nat) -> bool;

    /// What the rows of the columns are ordered by.
    spec fn row_keys(&self, columns: Seq<EntryView>, num_rows: nat) -> Seq<R::Key>;

    /// The rows of the columns as one column.
    spec fn row_column(&self, columns: Seq<EntryView>, num_rows: nat) -> ColumnView;

    /// A block has as many rows for the sort as it has rows.
    proof fn row_laws(&self, columns: Seq<EntryView>, num_rows: nat)
        requires
            self.convertible(columns, num_rows),
        ensures
            self.row_keys(columns, num_rows).len() == num_rows,
            self.row_column(columns, num_rows).rows.len() == num_rows,
    ;

    /// The converter for a sort.
    spec fn of(sort_columns: Seq<SortColumnDescription>) -> Self;

    fn create(sort_columns: Vec<SortColumnDescription>, schema: &DataSchema) -> (r: Result<Self, ErrorCode>)
        requires
            Self::creatable(sort_columns@),
        ensures
            r == Ok::<Self, ErrorCode>(Self::of(sort_columns@)),
    ;

    fn convert(&self, columns: &Vec<BlockEntry>, num_rows: usize) -> (r: R)
        requires
            self.convertible(entry_views(columns@), num_rows as nat),
        ensures
            r.keys() == self.row_keys(entry_views(columns@), num_rows as nat),
            r.order_column() == self.row_column(entry_views(columns@), num_rows as nat),
            r.keys().len() == num_rows,
    ;
}

/// The types whose values are ordered by an integer.
pub open spec fn is_simple(t: TypeView) -> bool {
    t is Number || t is Date || t is Timestamp
}

/// The integer that a value of such a type is ordered by.
pub open spec fn simple_rank(s: ScalarView) -> int {
    match s {
        ScalarView::Number(n) => number_rank(n),
        ScalarView::Date(d) => d as int,
        ScalarView::Timestamp(t) => t as int,
        _ => 0,
    }
}

pub open spec fn simple_key(s: ScalarView, asc: bool) -> int {
    if asc {
        simple_rank(s)
    } else {
        -simple_rank(s)
    }
}

fn simple_key_of(s: &Scalar, asc: bool) -> (r: i128)
    ensures
        r == simple_key(s@, asc),
{
    let v: i128 = match s {
        Scalar::Number(n) => rank(*n),
        Scalar::Date(d) => *d as i128,
        Scalar::Timestamp(t) => *t as i128,
        _ => 0,
    };
    if asc {
        v
    } else {
        -v
    }
}

/// Rows of one column of fixed-width values.
#[derive(Debug)]
pub struct SimpleRows {
    pub column: Column,
    pub asc: bool,
}

impl Rows for SimpleRows {
    type Key = int;

    open spec fn keys(&self) -> Seq<int> {
        self.column@.rows.map_values(|s: ScalarView| simple_key(s, self.asc))
    }

    open spec fn key_order(a: int, b: int) -> Order {
        int_order(a, b)
    }

    open spec fn order_column(&self) -> ColumnView {
        self.column@
    }

    proof fn order_laws(a: int, b: int, c: int) {
    }

    fn len(&self) -> usize {
        self.column.len()
    }

    fn compare_rows(&self, i: usize, other: &SimpleRows, j: usize) -> Order {
        compare_i128(
            simple_key_of(&self.column.rows[i], self.asc),
            simple_key_of(&other.column.rows[j], other.asc),
        )
    }

    fn to_column(&self) -> Column {
        self.column.clone()
    }
}

/// Makes `SimpleRows` of the one column that a block is sorted by.
#[derive(Debug)]
pub struct SimpleRowConverter {
    pub desc: SortColumnDescription,
}

impl RowConverter<SimpleRows> for SimpleRowConverter {
    open spec fn creatable(sort_columns: Seq<SortColumnDescription>) -> bool {
        sort_columns.len() == 1
    }

    /// One column of a type whose values are ordered by an integer.
    open spec fn convertible(&self, columns: Seq<EntryView>, num_rows: nat) -> bool {
        &&& columns.len() == 1
        &&& entry_rows_ok(columns[0], num_rows)
        &&& is_simple(full_column(columns[0], num_rows).data_type)
        &&& column_ok(full_column(columns[0], num_rows))
    }

    open spec fn row_keys(&self, columns: Seq<EntryView>, num_rows: nat) -> Seq<int> {
        full_column(columns[0], num_rows).rows.map_values(
            |s: ScalarView| simple_key(s, self.desc.asc),
        )
    }

    open spec fn row_column(&self, columns: Seq<EntryView>, num_rows: nat) -> ColumnView {
        full_column(columns[0], num_rows)
    }

    proof fn row_laws(&self, columns: Seq<EntryView>, num_rows: nat) {
    }

    open spec fn of(sort_columns: Seq<SortColumnDescription>) -> SimpleRowConverter {
        SimpleRowConverter { desc: sort_columns[0] }
    }

    fn create(sort_columns: Vec<SortColumnDescription>, _schema: &DataSchema) -> Result<
        SimpleRowConverter,
        ErrorCode,
    > {
        Ok(SimpleRowConverter { desc: sort_columns[0] })
    }

    fn convert(&self, columns: &Vec<BlockEntry>, num_rows: usize) -> SimpleRows {
        assert(entry_views(columns@)[0] == columns@[0]@);
        SimpleRows { column: columns[0].to_column(num_rows), asc: self.desc.asc }
    }
}

/// What a byte string is ordered by: its bytes, and whether the order is turned round.
pub open spec fn string_key(s: ScalarView, asc: bool) -> (bool, Seq<u8>) {
    (
        !asc,
        match s {
            ScalarView::String(v) => v,
            _ => Seq::empty(),
        },
    )
}

/// Rows of one column of byte strings.
#[derive(Debug)]
pub struct SimpleStringRows {
    pub column: Column,
    pub asc: bool,
}

proof fn lemma_bytes_order_laws(a: Seq<u8>, b: Seq<u8>, c: Seq<u8>)
    ensures
        bytes_order(a, a) == Order::Equal,
        bytes_order(b, a) == flip(bytes_order(a, b)),
        bytes_order(a, b) != Order::Greater && bytes_order(b, c) != Order::Greater ==> bytes_order(a, c)
            != Order::Greater,
        bytes_order(a, b) == Order::Equal && bytes_order(b, c) == Order::Equal ==> bytes_order(a, c) == Order::Equal,
    decreases a.len() + b.len() + c.len(),
{
    if a.len() > 0 && b.len() > 0 && c.len() > 0 {
        lemma_bytes_order_laws(a.skip(1), b.skip(1), c.skip(1));
    } else if a.len() > 0 && b.len() > 0 {
        lemma_bytes_order_laws(a.skip(1), b.skip(1), c);
    } else if a.len() > 0 {
        lemma_bytes_order_laws(a.skip(1), b, c);
    }
}

impl Rows for SimpleStringRows {
    type Key = (bool, Seq<u8>);

    open spec fn keys(&self) -> Seq<(bool, Seq<u8>)> {
        self.column@.rows.map_values(|s: ScalarView| string_key(s, self.asc))
    }

    open spec fn key_order(a: (bool, Seq<u8>), b: (bool, Seq<u8>)) -> Order {
        if a.0 != b.0 {
            bool_order(a.0, b.0)
        } else if a.0 {
            flip(bytes_order(a.1, b.1))
        } else {
            bytes_order(a.1, b.1)
        }
    }

    open spec fn order_column(&self) -> ColumnView {
        self.column@
    }

    proof fn order_laws(a: (bool, Seq<u8>), b: (bool, Seq<u8>), c: (bool, Seq<u8>)) {
        lemma_bytes_order_laws(a.1, b.1, c.1);
        lemma_bytes_order_laws(c.1, b.1, a.1);
        lemma_bytes_order_laws(a.1, c.1, b.1);
    }

    fn len(&self) -> usize {
        self.column.len()
    }

    fn compare_rows(&self, i: usize, other: &SimpleStringRows, j: usize) -> Order {
        if self.asc != other.asc {
            if self.asc {
                Order::Less
            } else {
                Order::Greater
            }
        } else {
            let a = string_bytes(&self.column.rows[i]);
            let b = string_bytes(&other.column.rows[j]);
            if self.asc {
                compare_bytes(&a, &b)
            } else {
                flipped(compare_bytes(&a, &b))
            }
        }
    }

    fn to_column(&self) -> Column {
        self.column.clone()
    }
}

fn string_bytes(s: &Scalar) -> (r: Vec<u8>)
    ensures
        r@ == string_key(s@, true).1,
{
    match s {
        Scalar::String(v) => clone_bytes(v),
        _ => Vec::new(),
    }
}

/// Makes `SimpleStringRows` of the one column that a block is sorted by.
#[derive(Debug)]
pub struct SimpleStringRowConverter {
    pub desc: SortColumnDescription,
}

impl RowConverter<SimpleStringRows> for SimpleStringRowConverter {
    open spec fn creatable(sort_columns: Seq<SortColumnDescription>) -> bool {
        sort_columns.len() == 1
    }

    /// One column of strings.
    open spec fn convertible(&self, columns: Seq<EntryView>, num_rows: nat) -> bool {
        &&& columns.len() == 1
        &&& entry_rows_ok(columns[0], num_rows)
        &&& full_column(columns[0], num_rows).data_type is String
        &&& column_ok(full_column(columns[0], num_rows))
    }

    open spec fn row_keys(&self, columns: Seq<EntryView>, num_rows: nat) -> Seq<(bool, Seq<u8>)> {
        full_column(columns[0], num_rows).rows.map_values(
            |s: ScalarView| string_key(s, self.desc.asc),
        )
    }

    open spec fn row_column(&self, columns: Seq<EntryView>, num_rows: nat) -> ColumnView {
        full_column(columns[0], num_rows)
    }

    proof fn row_laws(&self, columns: Seq<EntryView>, num_rows: nat) {
    }

    open spec fn of(sort_columns: Seq<SortColumnDescription>) -> SimpleStringRowConverter {
        SimpleStringRowConverter { desc: sort_columns[0] }
    }

    fn create(sort_columns: Vec<SortColumnDescription>, _schema: &DataSchema) -> Result<
        SimpleStringRowConverter,
        ErrorCode,
    > {
        Ok(SimpleStringRowConverter { desc: sort_columns[0] })
    }

    fn convert(&self, columns: &Vec<BlockEntry>, num_rows: usize) -> SimpleStringRows {
        assert(entry_views(columns@)[0] == columns@[0]@);
        SimpleStringRows { column: columns[0].to_column(num_rows), asc: self.desc.asc }
    }
}

/// Rows of one simple column are ordered by the values themselves: in an ascending sort the key of
/// a value is at most that of another exactly where the value is, and in a descending sort exactly
/// where the other value is.
pub proof fn simple_keys_follow_the_values(a: ScalarView, b: ScalarView, asc: bool)
    ensures
        ({
            let first = SimpleRows::key_order(simple_key(a, asc), simple_key(b, asc)) != Order::Greater;
            let is = |up: bool, down: bool|
                first == if asc {
                    up
                } else {
                    down
                };
            match (a, b) {
                (ScalarView::Date(x), ScalarView::Date(y)) => is(x <= y, y <= x),
                (ScalarView::Timestamp(x), ScalarView::Timestamp(y)) => is(x <= y, y <= x),
                (ScalarView::Number(m), ScalarView::Number(n)) => match (m, n) {
                    (NumberScalar::UInt8(x), NumberScalar::UInt8(y)) => is(x <= y, y <= x),
                    (NumberScalar::UInt16(x), NumberScalar::UInt16(y)) => is(x <= y, y <= x),
                    (NumberScalar::UInt32(x), NumberScalar::UInt32(y)) => is(x <= y, y <= x),
                    (NumberScalar::UInt64(x), NumberScalar::UInt64(y)) => is(x <= y, y <= x),
                    (NumberScalar::Int8(x), NumberScalar::Int8(y)) => is(x <= y, y <= x),
                    (NumberScalar::Int16(x), NumberScalar::Int16(y)) => is(x <= y, y <= x),
                    (NumberScalar::Int32(x), NumberScalar::Int32(y)) => is(x <= y, y <= x),
                    (NumberScalar::Int64(x), NumberScalar::Int64(y)) => is(x <= y, y <= x),
                    (NumberScalar::Float32(x), NumberScalar::Float32(y)) => is(x <= y, y <= x),
                    (NumberScalar::Float64(x), NumberScalar::Float64(y)) => is(x <= y, y <= x),
                    _ => true,
                },
                _ => true,
            }
        }),
{
}

/// Rows of one string column are ordered byte by byte: in an ascending sort by the first byte that
/// differs, a string before those that begin with it, and in a descending sort the other way round.
pub proof fn string_keys_follow_the_bytes(x: Seq<u8>, y: Seq<u8>, asc: bool)
    ensures
        ({
            let first = SimpleStringRows::key_order(
                string_key(ScalarView::String(x), asc),
                string_key(ScalarView::String(y), asc),
            );
            &&& first != Order::Greater <==> if asc {
                bytes_at_most(x, y)
            } else {
                bytes_at_most(y, x)
            }
            &&& first == Order::Equal <==> x == y
        }),
{
    strings_are_ordered_by_their_bytes(x, y);
    strings_are_ordered_by_their_bytes(y, x);
    lemma_bytes_order_laws(x, y, x);
}

/// A comparison of two rows goes by the two values that the sort column has in them.
pub proof fn rows_are_compared_by_their_values(l: SimpleRows, i: int, r: SimpleRows, j: int, t: TypeView)
    requires
        is_simple(t),
        l.asc == r.asc,
        0 <= i < l.column@.rows.len(),
        0 <= j < r.column@.rows.len(),
        has_type(t, l.column@.rows[i]),
        has_type(t, r.column@.rows[j]),
    ensures
        SimpleRows::key_order(l.keys()[i], r.keys()[j]) != Order::Greater <==> if l.asc {
            value_at_most(l.column@.rows[i], r.column@.rows[j])
        } else {
            value_at_most(r.column@.rows[j], l.column@.rows[i])
        },
{
    simple_keys_follow_the_values(l.column@.rows[i], r.column@.rows[j], l.asc);
}

/// A sort by one column is made for that column, in its direction.
pub proof fn a_sort_by_one_column_goes_by_it(d: SortColumnDescription)
    ensures
        SimpleRowConverter::of(seq![d]).desc == d,
        SimpleStringRowConverter::of(seq![d]).desc == d,
{
}

}
