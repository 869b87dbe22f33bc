//! Operations on columns.

use vstd::prelude::*;

use crate::order::number_rank;
use crate::types::infer_type;
use crate::types::lemma_scalar_views_push;
use crate::types::remove_nullable;
use crate::types::scalar_view;
use crate::types::scalar_views;
use crate::types::type_view;
use crate::types::type_views;
use crate::types::Column;
use crate::types::ColumnView;
use crate::types::DataType;
use crate::types::DecimalDataType;
use crate::types::DecimalScalar;
use crate::types::NumberDataType;
use crate::types::NumberScalar;
use crate::types::Scalar;
use crate::types::ScalarView;
use crate::types::TypeView;
use crate::types::I256;

verus! {

/// The rows from `start` up to `end`; none where the range is empty.
pub open spec fn rows_in<A>(rows: Seq<A>, start: int, end: int) -> Seq<A> {
    if start >= end {
        Seq::empty()
    } else {
        rows.subrange(start, end)
    }
}

pub open spec fn repeated<A>(value: A, n: nat) -> Seq<A> {
    Seq::new(n, |i: int| value)
}

pub open spec fn zero_number(t: NumberDataType) -> NumberScalar {
    match t {
        NumberDataType::UInt8 => NumberScalar::UInt8(0),
        NumberDataType::UInt16 => NumberScalar::UInt16(0),
        NumberDataType::UInt32 => NumberScalar::UInt32(0),
        NumberDataType::UInt64 => NumberScalar::UInt64(0),
        NumberDataType::Int8 => NumberScalar::Int8(0),
        NumberDataType::Int16 => NumberScalar::Int16(0),
        NumberDataType::Int32 => NumberScalar::Int32(0),
        NumberDataType::Int64 => NumberScalar::Int64(0),
        NumberDataType::Float32 => NumberScalar::Float32(0),
        NumberDataType::Float64 => NumberScalar::Float64(0),
    }
}

pub open spec fn zero_decimal(t: DecimalDataType) -> DecimalScalar {
    match t {
        DecimalDataType::Decimal128(size) => DecimalScalar::Decimal128(0, size),
        DecimalDataType::Decimal256(size) => DecimalScalar::Decimal256(I256 { high: 0, low: 0 }, size),
    }
}

/// The value that stands for nothing in a column of the type: zero, an empty string, an empty
/// array; a missing value where the type is nullable.
pub open spec fn default_scalar(t: TypeView) -> ScalarView
    decreases t,
{
    match t {
        TypeView::Null => ScalarView::Null,
        TypeView::EmptyArray => ScalarView::EmptyArray,
        TypeView::EmptyMap => ScalarView::EmptyMap,
        TypeView::Boolean => ScalarView::Boolean(false),
        TypeView::String => ScalarView::String(Seq::empty()),
        TypeView::Number(n) => ScalarView::Number(zero_number(n)),
        TypeView::Decimal(d) => ScalarView::Decimal(zero_decimal(d)),
        TypeView::Timestamp => ScalarView::Timestamp(0),
        TypeView::Date => ScalarView::Date(0),
        TypeView::Nullable(_) => ScalarView::Null,
        TypeView::Array(e) => ScalarView::Array(ColumnView { data_type: *e, rows: Seq::empty() }),
        TypeView::Mapping(e) => ScalarView::Mapping(ColumnView { data_type: *e, rows: Seq::empty() }),
        TypeView::Bitmap => ScalarView::Bitmap(Seq::empty()),
        TypeView::Tuple(ts) => ScalarView::Tuple(default_scalars(ts)),
        TypeView::Variant => ScalarView::Variant(Seq::empty()),
        TypeView::Generic(_) => ScalarView::Null,
    }
}

pub open spec fn default_scalars(ts: Seq<TypeView>) -> Seq<ScalarView>
    decreases ts,
{
    Seq::new(ts.len(), |i: int| if 0 <= i < ts.len() { default_scalar(ts[i]) } else { ScalarView::Null })
}

/// The value that a column whose values are of a type stores in a row.
pub open spec fn stored_value(inner: TypeView, row: ScalarView) -> ScalarView {
    match row {
        ScalarView::NullOver(v) => *v,
        ScalarView::Null => default_scalar(inner),
        _ => row,
    }
}

/// The values that a nullable column stores, valid or not.
pub open spec fn stored_rows(c: ColumnView) -> Seq<ScalarView> {
    c.rows.map_values(|row: ScalarView| stored_value(remove_nullable(c.data_type), row))
}

impl DataType {
    fn default_values(ts: &Vec<DataType>) -> (out: Vec<Scalar>)
        ensures
            scalar_views(out@) == default_scalars(type_views(ts@)),
        decreases ts,
    {
        let mut out: Vec<Scalar> = Vec::new();
        let mut i: usize = 0;
        while i < ts.len()
            invariant
                i <= ts.len(),
                out.len() == i,
                forall|j: int| 0 <= j < i ==> scalar_view(#[trigger] out@[j]) == default_scalar(type_view(ts@[j])),
            decreases ts.len() - i,
        {
            assert(decreases_to!(ts => ts[i as int]));
            let s = ts[i].default_value();
            out.push(s);
            i += 1;
        }
        assert(scalar_views(out@) =~= default_scalars(type_views(ts@)));
        out
    }

    pub fn default_value(&self) -> (r: Scalar)
        ensures
            r@ == default_scalar(self@),
        decreases self,
    {
        match self {
            DataType::Null => Scalar::Null,
            DataType::EmptyArray => Scalar::EmptyArray,
            DataType::EmptyMap => Scalar::EmptyMap,
            DataType::Boolean => Scalar::Boolean(false),
            DataType::String => Scalar::String(Vec::new()),
            DataType::Number(n) => Scalar::Number(match n {
                NumberDataType::UInt8 => NumberScalar::UInt8(0),
                NumberDataType::UInt16 => NumberScalar::UInt16(0),
                NumberDataType::UInt32 => NumberScalar::UInt32(0),
                NumberDataType::UInt64 => NumberScalar::UInt64(0),
                NumberDataType::Int8 => NumberScalar::Int8(0),
                NumberDataType::Int16 => NumberScalar::Int16(0),
                NumberDataType::Int32 => NumberScalar::Int32(0),
                NumberDataType::Int64 => NumberScalar::Int64(0),
                NumberDataType::Float32 => NumberScalar::Float32(0),
                NumberDataType::Float64 => NumberScalar::Float64(0),
            }),
            DataType::Decimal(d) => Scalar::Decimal(match d {
                DecimalDataType::Decimal128(size) => DecimalScalar::Decimal128(0, *size),
                DecimalDataType::Decimal256(size) => DecimalScalar::Decimal256(I256 { high: 0, low: 0 }, *size),
            }),
            DataType::Timestamp => Scalar::Timestamp(0),
            DataType::Date => Scalar::Date(0),
            DataType::Nullable(_) => Scalar::Null,
            DataType::Array(e) => Scalar::Array(Column::empty((**e).clone())),
            DataType::Mapping(e) => Scalar::Mapping(Column::empty((**e).clone())),
            DataType::Bitmap => Scalar::Bitmap(Vec::new()),
            DataType::Tuple(ts) => Scalar::Tuple(Self::default_values(ts)),
            DataType::Variant => Scalar::Variant(Vec::new()),
            DataType::Generic(_) => Scalar::Null,
        }
    }
}

impl Column {
    pub fn len(&self) -> (r: usize)
        ensures
            r == self@.rows.len(),
    {
        self.rows.len()
    }

    pub fn data_type(&self) -> (r: DataType)
        ensures
            r@ == self@.data_type,
    {
        self.data_type.clone()
    }

    /// A column of the type without rows.
    pub fn empty(data_type: DataType) -> (r: Column)
        ensures
            r@ == (ColumnView { data_type: data_type@, rows: Seq::empty() }),
    {
        let r = Column { data_type, rows: Vec::new() };
        assert(r@.rows =~= Seq::<ScalarView>::empty());
        r
    }

    /// A column of `n` rows that all hold the scalar.
    pub fn repeat(scalar: &Scalar, n: usize, data_type: &DataType) -> (r: Column)
        ensures
            r@ == (ColumnView { data_type: data_type@, rows: repeated(scalar@, n as nat) }),
    {
        let mut rows: Vec<Scalar> = Vec::new();
        let mut i: usize = 0;
        while i < n
            invariant
                i <= n,
                rows.len() == i,
                forall|j: int| 0 <= j < i ==> scalar_view(#[trigger] rows@[j]) == scalar@,
            decreases n - i,
        {
            rows.push(scalar.clone());
            i += 1;
        }
        assert(scalar_views(rows@) =~= repeated(scalar@, n as nat));
        Column { data_type: data_type.clone(), rows }
    }

    /// The rows from `start` up to `end`.
    pub fn slice(&self, start: usize, end: usize) -> (r: Column)
        requires
            end <= self@.rows.len(),
        ensures
            r@ == (ColumnView { data_type: self@.data_type, rows: rows_in(self@.rows, start as int, end as int) }),
    {
        let mut rows: Vec<Scalar> = Vec::new();
        let ghost all = scalar_views(self.rows@);
        let mut i: usize = start;
        while i < end
            invariant
                start <= i,
                start <= end ==> i <= end,
                start >= end ==> i == start,
                end <= self.rows.len(),
                all == scalar_views(self.rows@),
                rows.len() == i - start,
                forall|j: int| 0 <= j < rows.len() ==> scalar_view(#[trigger] rows@[j]) == all[start + j],
            decreases end - i,
        {
            rows.push(self.rows[i].clone());
            i += 1;
        }
        assert(scalar_views(rows@) =~= rows_in(all, start as int, end as int));
        Column { data_type: self.data_type.clone(), rows }
    }

    /// Appends copies of the rows from `start` up to `end` of another column.
    pub fn extend_from(&mut self, other: &Column, start: usize, end: usize)
        requires
            start <= end <= other@.rows.len(),
        ensures
            final(self)@ == (ColumnView {
                data_type: old(self)@.data_type,
                rows: old(self)@.rows + other@.rows.subrange(start as int, end as int),
            }),
    {
        let ghost before = scalar_views(self.rows@);
        let ghost all = scalar_views(other.rows@);
        assert(before + all.subrange(start as int, start as int) =~= before);
        let mut i: usize = start;
        while i < end
            invariant
                start <= i <= end <= other.rows.len(),
                all == scalar_views(other.rows@),
                self.data_type == old(self).data_type,
                before == scalar_views(old(self).rows@),
                scalar_views(self.rows@) == before + all.subrange(start as int, i as int),
            decreases end - i,
        {
            let ghost was = self.rows@;
            self.rows.push(other.rows[i].clone());
            proof {
                lemma_scalar_views_push(was, self.rows@[was.len() as int]);
                assert(self.rows@ =~= was.push(self.rows@[was.len() as int]));
                assert(all[i as int] == scalar_view(other.rows@[i as int]));
                assert(before + all.subrange(start as int, i + 1) =~= (before + all.subrange(
                    start as int,
                    i as int,
                )).push(all[i as int]));
            }
            i += 1;
        }
        assert(all.subrange(start as int, end as int) == other@.rows.subrange(start as int, end as int));
    }

    /// The column without the `Nullable` around its type: the values as they are stored, also
    /// where a row is NULL.
    pub fn strip_nullable(&self) -> (r: Column)
        ensures
            r@.data_type == remove_nullable(self@.data_type),
            r@.rows == stored_rows(self@),
    {
        let data_type = self.data_type.remove_nullable();
        let mut rows: Vec<Scalar> = Vec::new();
        let ghost all = scalar_views(self.rows@);
        let mut i: usize = 0;
        while i < self.rows.len()
            invariant
                i <= self.rows.len(),
                rows.len() == i,
                all == scalar_views(self.rows@),
                forall|j: int|
                    0 <= j < i ==> scalar_view(#[trigger] rows@[j]) == stored_value(data_type@, all[j]),
            decreases self.rows.len() - i,
        {
            let s = match &self.rows[i] {
                Scalar::Null => data_type.default_value(),
                Scalar::NullOver(v) => (**v).clone(),
                other => other.clone(),
            };
            assert(all[i as int] == scalar_view(self.rows@[i as int]));
            rows.push(s);
            i += 1;
        }
        let r = Column { data_type, rows };
        assert(r@.rows =~= stored_rows(self@));
        r
    }
}

/// The bytes that a value takes: its width, or the bytes of what it holds.
pub open spec fn scalar_size(s: ScalarView) -> nat
    decreases s,
{
    match s {
        ScalarView::Null | ScalarView::EmptyArray | ScalarView::EmptyMap => 0,
        ScalarView::NullOver(v) => scalar_size(*v),
        ScalarView::Number(n) => number_width(n),
        ScalarView::Decimal(DecimalScalar::Decimal128(_, _)) => 16,
        ScalarView::Decimal(DecimalScalar::Decimal256(_, _)) => 32,
        ScalarView::Timestamp(_) => 8,
        ScalarView::Date(_) => 4,
        ScalarView::Boolean(_) => 1,
        ScalarView::String(v) => v.len(),
        ScalarView::Array(c) => rows_size(c.rows),
        ScalarView::Mapping(c) => rows_size(c.rows),
        ScalarView::Bitmap(v) => v.len(),
        ScalarView::Tuple(fields) => rows_size(fields),
        ScalarView::Variant(v) => v.len(),
    }
}

pub open spec fn rows_size(rows: Seq<ScalarView>) -> nat
    decreases rows, rows.len(),
{
    if rows.len() == 0 {
        0
    } else {
        scalar_size(rows[0]) + rows_size(rows.subrange(1, rows.len() as int))
    }
}

pub open spec fn number_width(n: NumberScalar) -> nat {
    match n {
        NumberScalar::UInt8(_) | NumberScalar::Int8(_) => 1,
        NumberScalar::UInt16(_) | NumberScalar::Int16(_) => 2,
        NumberScalar::UInt32(_) | NumberScalar::Int32(_) | NumberScalar::Float32(_) => 4,
        NumberScalar::UInt64(_) | NumberScalar::Int64(_) | NumberScalar::Float64(_) => 8,
    }
}

impl Scalar {
    pub fn memory_size(&self) -> (r: usize)
        requires
            scalar_size(self@) <= usize::MAX,
        ensures
            r == scalar_size(self@),
        decreases self,
    {
        match self {
            Scalar::Null | Scalar::EmptyArray | Scalar::EmptyMap => 0,
            Scalar::NullOver(v) => v.memory_size(),
            Scalar::Number(n) => match n {
                NumberScalar::UInt8(_) | NumberScalar::Int8(_) => 1,
                NumberScalar::UInt16(_) | NumberScalar::Int16(_) => 2,
                NumberScalar::UInt32(_) | NumberScalar::Int32(_) | NumberScalar::Float32(_) => 4,
                NumberScalar::UInt64(_) | NumberScalar::Int64(_) | NumberScalar::Float64(_) => 8,
            },
            Scalar::Decimal(DecimalScalar::Decimal128(_, _)) => 16,
            Scalar::Decimal(DecimalScalar::Decimal256(_, _)) => 32,
            Scalar::Timestamp(_) => 8,
            Scalar::Date(_) => 4,
            Scalar::Boolean(_) => 1,
            Scalar::String(v) => v.len(),
            Scalar::Array(c) => c.memory_size(),
            Scalar::Mapping(c) => c.memory_size(),
            Scalar::Bitmap(v) => v.len(),
            Scalar::Tuple(fields) => Self::sizes(fields),
            Scalar::Variant(v) => v.len(),
        }
    }

    fn sizes(rows: &Vec<Scalar>) -> (r: usize)
        requires
            rows_size(scalar_views(rows@)) <= usize::MAX,
        ensures
            r == rows_size(scalar_views(rows@)),
        decreases rows,
    {
        let ghost all = scalar_views(rows@);
        let mut total: usize = 0;
        let mut i: usize = 0;
        assert(all.subrange(0, all.len() as int) =~= all);
        while i < rows.len()
            invariant
                i <= rows.len(),
                all == scalar_views(rows@),
                total + rows_size(all.subrange(i as int, all.len() as int)) == rows_size(all),
                rows_size(all) <= usize::MAX,
            decreases rows.len() - i,
        {
            let ghost rest = all.subrange(i as int, all.len() as int);
            proof {
                assert(decreases_to!(rows => rows[i as int]));
                assert(rest[0] == scalar_view(rows@[i as int]));
                assert(rest.subrange(1, rest.len() as int) =~= all.subrange(i + 1, all.len() as int));
            }
            total = total + rows[i].memory_size();
            i += 1;
        }
        total
    }
}

impl Column {
    pub fn memory_size(&self) -> (r: usize)
        requires
            rows_size(self@.rows) <= usize::MAX,
        ensures
            r == rows_size(self@.rows),
        decreases self,
    {
        Scalar::sizes(&self.rows)
    }
}

/// The rows from one place up to another are as many as lie between them, and are those.
pub proof fn rows_between_two_places<A>(rows: Seq<A>, start: int, end: int)
    requires
        0 <= start,
        end <= rows.len(),
    ensures
        rows_in(rows, start, end).len() == if start < end {
            end - start
        } else {
            0
        },
        forall|i: int| 0 <= i < end - start ==> #[trigger] rows_in(rows, start, end)[i] == rows[start + i],
{
}

/// A value that stands for nothing is zero, false or empty, of the type that it stands for; it is
/// missing where the type is nullable.
pub proof fn default_values_are_zero_or_empty(t: TypeView)
    ensures
        t is Null || t is Nullable || t is Generic ==> default_scalar(t) == ScalarView::Null,
        t == TypeView::Boolean ==> default_scalar(t) == ScalarView::Boolean(false),
        t == TypeView::Date ==> default_scalar(t) == ScalarView::Date(0),
        t == TypeView::Timestamp ==> default_scalar(t) == ScalarView::Timestamp(0),
        t matches TypeView::Number(n) ==> (default_scalar(t) matches ScalarView::Number(v) && infer_type(
            default_scalar(t),
        ) == t && number_rank(v) == 0),
        t matches TypeView::Decimal(d) ==> infer_type(default_scalar(t)) == t && match default_scalar(t) {
            ScalarView::Decimal(DecimalScalar::Decimal128(v, _)) => v == 0,
            ScalarView::Decimal(DecimalScalar::Decimal256(v, _)) => v.high == 0 && v.low == 0,
            _ => false,
        },
        t == TypeView::String ==> (default_scalar(t) matches ScalarView::String(v) && v.len() == 0),
        t == TypeView::Bitmap ==> (default_scalar(t) matches ScalarView::Bitmap(v) && v.len() == 0),
        t == TypeView::Variant ==> (default_scalar(t) matches ScalarView::Variant(v) && v.len() == 0),
        t matches TypeView::Array(e) ==> (default_scalar(t) matches ScalarView::Array(c) && c.rows.len() == 0
            && c.data_type == *e),
        t matches TypeView::Mapping(e) ==> (default_scalar(t) matches ScalarView::Mapping(c) && c.rows.len() == 0
            && c.data_type == *e),
        t matches TypeView::Tuple(ts) ==> (default_scalar(t) matches ScalarView::Tuple(fields) && fields.len()
            == ts.len() && forall|i: int| 0 <= i < ts.len() ==> #[trigger] fields[i] == default_scalar(ts[i])),
{
    reveal_with_fuel(default_scalar, 2);
}

/// Under a nullable type a column keeps the values that it has; where a value is missing and
/// nothing is stored under it, the value that stands for nothing takes its place.
pub proof fn stored_values_are_kept(c: ColumnView, i: int)
    requires
        0 <= i < c.rows.len(),
    ensures
        stored_rows(c).len() == c.rows.len(),
        !(c.rows[i] is Null || c.rows[i] is NullOver) ==> stored_rows(c)[i] == c.rows[i],
        c.rows[i] matches ScalarView::NullOver(v) ==> stored_rows(c)[i] == *v,
        c.rows[i] is Null ==> stored_rows(c)[i] == default_scalar(
            match c.data_type {
                TypeView::Nullable(inner) => *inner,
                other => other,
            },
        ),
{
}

/// Values take as many bytes as their types are wide, strings as many as they have, and nested
/// values as many as all that is in them.
pub proof fn sizes_are_added_up(s: ScalarView, rows: Seq<ScalarView>, more: Seq<ScalarView>)
    ensures
        s matches ScalarView::Number(n) ==> scalar_size(s) == match n {
            NumberScalar::UInt8(_) => 1nat,
            NumberScalar::Int8(_) => 1,
            NumberScalar::UInt16(_) => 2,
            NumberScalar::Int16(_) => 2,
            NumberScalar::UInt32(_) => 4,
            NumberScalar::Int32(_) => 4,
            NumberScalar::Float32(_) => 4,
            NumberScalar::UInt64(_) => 8,
            NumberScalar::Int64(_) => 8,
            NumberScalar::Float64(_) => 8,
        },
        s is Date ==> scalar_size(s) == 4,
        s is Timestamp ==> scalar_size(s) == 8,
        s is Boolean ==> scalar_size(s) == 1,
        s matches ScalarView::String(v) ==> scalar_size(s) == v.len(),
        s matches ScalarView::Bitmap(v) ==> scalar_size(s) == v.len(),
        s matches ScalarView::Variant(v) ==> scalar_size(s) == v.len(),
        rows_size(Seq::empty()) == 0,
        rows_size(seq![s]) == scalar_size(s),
        rows_size(rows + more) == rows_size(rows) + rows_size(more),
        scalar_size(ScalarView::Tuple(rows)) == rows_size(rows),
    decreases rows.len(),
{
    let one = seq![s];
    assert(one.subrange(1, 1) =~= Seq::<ScalarView>::empty());
    assert(rows_size(Seq::empty()) == 0);
    assert(rows_size(one) == scalar_size(one[0]) + rows_size(one.subrange(1, 1)));
    if rows.len() > 0 {
        let rest = rows.subrange(1, rows.len() as int);
        sizes_are_added_up(s, rest, more);
        assert((rows + more).subrange(1, (rows + more).len() as int) =~= rest + more);
        assert((rows + more)[0] == rows[0]);
    } else {
        assert(rows + more =~= more);
    }
}

/// A decimal takes as many bytes as it is wide, an array and a map as many as what they hold, and
/// what is missing or empty none but for those that are stored under it.
pub proof fn wide_and_nested_values_take_their_bytes(s: ScalarView)
    ensures
        match s {
            ScalarView::Null => scalar_size(s) == 0,
            ScalarView::EmptyArray => scalar_size(s) == 0,
            ScalarView::EmptyMap => scalar_size(s) == 0,
            ScalarView::NullOver(v) => scalar_size(s) == scalar_size(*v),
            ScalarView::Decimal(DecimalScalar::Decimal128(_, _)) => scalar_size(s) * 8 == 128,
            ScalarView::Decimal(DecimalScalar::Decimal256(_, _)) => scalar_size(s) * 8 == 256,
            ScalarView::Array(c) => scalar_size(s) == rows_size(c.rows),
            ScalarView::Mapping(c) => scalar_size(s) == rows_size(c.rows),
            _ => true,
        },
{
}

}
