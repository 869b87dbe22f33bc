//! The order of scalars of one type.

use vstd::prelude::*;

use crate::types::is_null;
use crate::types::scalar_view;
use crate::types::scalar_views;
use crate::types::Column;
use crate::types::ColumnView;
use crate::types::DecimalScalar;
use crate::types::I256;
use crate::types::NumberScalar;
use crate::types::Scalar;
use crate::types::ScalarView;

verus! {

#[derive(Clone, Copy, Debug, PartialEq, Eq, Structural)]
pub enum Order {
    Less,
    Equal,
    Greater,
}

pub open spec fn int_order(a: int, b: int) -> Order {
    if a < b {
        Order::Less
    } else if a == b {
        Order::Equal
    } else {
        Order::Greater
    }
}

/// The integer that a number stands for: its value, or a float's order key.
pub open spec fn number_rank(n: NumberScalar) -> int {
    match n {
        NumberScalar::UInt8(v) => v as int,
        NumberScalar::UInt16(v) => v as int,
        NumberScalar::UInt32(v) => v as int,
        NumberScalar::UInt64(v) => v as int,
        NumberScalar::Int8(v) => v as int,
        NumberScalar::Int16(v) => v as int,
        NumberScalar::Int32(v) => v as int,
        NumberScalar::Int64(v) => v as int,
        NumberScalar::Float32(v) => v as int,
        NumberScalar::Float64(v) => v as int,
    }
}

/// Whether two numbers are of one numeric type.
pub open spec fn same_number_type(a: NumberScalar, b: NumberScalar) -> bool {
    match (a, b) {
        (NumberScalar::UInt8(_), NumberScalar::UInt8(_)) => true,
        (NumberScalar::UInt16(_), NumberScalar::UInt16(_)) => true,
        (NumberScalar::UInt32(_), NumberScalar::UInt32(_)) => true,
        (NumberScalar::UInt64(_), NumberScalar::UInt64(_)) => true,
        (NumberScalar::Int8(_), NumberScalar::Int8(_)) => true,
        (NumberScalar::Int16(_), NumberScalar::Int16(_)) => true,
        (NumberScalar::Int32(_), NumberScalar::Int32(_)) => true,
        (NumberScalar::Int64(_), NumberScalar::Int64(_)) => true,
        (NumberScalar::Float32(_), NumberScalar::Float32(_)) => true,
        (NumberScalar::Float64(_), NumberScalar::Float64(_)) => true,
        _ => false,
    }
}

/// Byte strings are ordered by their first difference; a proper prefix comes first.
pub open spec fn bytes_order(a: Seq<u8>, b: Seq<u8>) -> Order
    decreases a.len(),
{
    if a.len() == 0 {
        if b.len() == 0 {
            Order::Equal
        } else {
            Order::Less
        }
    } else if b.len() == 0 {
        Order::Greater
    } else if a[0] < b[0] {
        Order::Less
    } else if a[0] > b[0] {
        Order::Greater
    } else {
        bytes_order(a.skip(1), b.skip(1))
    }
}

/// The order of two scalars of one type; `None` where the two are of different kinds.
/// A missing value comes before every value.
pub open spec fn scalar_order(a: ScalarView, b: ScalarView) -> Option<Order>
    decreases a, 1nat,
{
    if is_null(a) && is_null(b) {
        Some(Order::Equal)
    } else if is_null(a) {
        Some(Order::Less)
    } else if is_null(b) {
        Some(Order::Greater)
    } else {
        value_order(a, b)
    }
}

/// The order of two scalars neither of which is missing.
pub open spec fn value_order(a: ScalarView, b: ScalarView) -> Option<Order>
    decreases a, 0nat,
{
    match (a, b) {
        (ScalarView::EmptyArray, ScalarView::EmptyArray) => Some(Order::Equal),
        (ScalarView::EmptyMap, ScalarView::EmptyMap) => Some(Order::Equal),
        (ScalarView::Number(x), ScalarView::Number(y)) => if same_number_type(x, y) {
            Some(int_order(number_rank(x), number_rank(y)))
        } else {
            None
        },
        (ScalarView::Decimal(x), ScalarView::Decimal(y)) => match (x, y) {
            (DecimalScalar::Decimal128(v, _), DecimalScalar::Decimal128(w, _)) => Some(
                int_order(v as int, w as int),
            ),
            (DecimalScalar::Decimal256(v, _), DecimalScalar::Decimal256(w, _)) => Some(
                int_order(v.value(), w.value()),
            ),
            _ => None,
        },
        (ScalarView::Timestamp(x), ScalarView::Timestamp(y)) => Some(int_order(x as int, y as int)),
        (ScalarView::Date(x), ScalarView::Date(y)) => Some(int_order(x as int, y as int)),
        (ScalarView::Boolean(x), ScalarView::Boolean(y)) => Some(bool_order(x, y)),
        (ScalarView::String(x), ScalarView::String(y)) => Some(bytes_order(x, y)),
        (ScalarView::Array(x), ScalarView::Array(y)) => rows_order(x.rows, y.rows, 0),
        (ScalarView::Mapping(x), ScalarView::Mapping(y)) => rows_order(x.rows, y.rows, 0),
        (ScalarView::Bitmap(x), ScalarView::Bitmap(y)) => Some(bytes_order(x, y)),
        (ScalarView::Tuple(x), ScalarView::Tuple(y)) => rows_order(x, y, 0),
        (ScalarView::Variant(x), ScalarView::Variant(y)) => Some(bytes_order(x, y)),
        _ => None,
    }
}

pub open spec fn bool_order(x: bool, y: bool) -> Order {
    if x == y {
        Order::Equal
    } else if x {
        Order::Greater
    } else {
        Order::Less
    }
}

/// The order of two sequences of scalars from position `i` on: the first pair that is not
/// equal decides; where one sequence ends first, it comes first.
pub open spec fn rows_order(a: Seq<ScalarView>, b: Seq<ScalarView>, i: nat) -> Option<Order>
    decreases a, a.len() - i,
{
    if i >= a.len() {
        if i >= b.len() {
            Some(Order::Equal)
        } else {
            Some(Order::Less)
        }
    } else if i >= b.len() {
        Some(Order::Greater)
    } else {
        match scalar_order(a[i as int], b[i as int]) {
            Some(Order::Equal) => rows_order(a, b, i + 1),
            other => other,
        }
    }
}

pub fn compare_i128(a: i128, b: i128) -> (r: Order)
    ensures
        r == int_order(a as int, b as int),
{
    if a < b {
        Order::Less
    } else if a == b {
        Order::Equal
    } else {
        Order::Greater
    }
}

pub fn compare_i256(a: I256, b: I256) -> (r: Order)
    ensures
        r == int_order(a.value(), b.value()),
{
    if a.high < b.high {
        Order::Less
    } else if a.high > b.high {
        Order::Greater
    } else if a.low < b.low {
        Order::Less
    } else if a.low > b.low {
        Order::Greater
    } else {
        Order::Equal
    }
}

pub fn compare_bool(a: bool, b: bool) -> (r: Order)
    ensures
        r == bool_order(a, b),
{
    if a == b {
        Order::Equal
    } else if a {
        Order::Greater
    } else {
        Order::Less
    }
}

pub fn compare_bytes(a: &Vec<u8>, b: &Vec<u8>) -> (r: Order)
    ensures
        r == bytes_order(a@, b@),
{
    let mut i: usize = 0;
    assert(a@.skip(0) =~= a@);
    assert(b@.skip(0) =~= b@);
    while i < a.len() && i < b.len()
        invariant
            i <= a.len(),
            i <= b.len(),
            bytes_order(a@, b@) == bytes_order(a@.skip(i as int), b@.skip(i as int)),
        decreases a.len() - i,
    {
        if a[i] < b[i] {
            return Order::Less;
        }
        if a[i] > b[i] {
            return Order::Greater;
        }
        assert(a@.skip(i as int).skip(1) =~= a@.skip(i + 1));
        assert(b@.skip(i as int).skip(1) =~= b@.skip(i + 1));
        i += 1;
    }
    if i < a.len() {
        Order::Greater
    } else if i < b.len() {
        Order::Less
    } else {
        Order::Equal
    }
}

/// The rank of a number; see `number_rank`.
pub fn rank(n: NumberScalar) -> (r: i128)
    ensures
        r == number_rank(n),
{
    match n {
        NumberScalar::UInt8(v) => v as i128,
        NumberScalar::UInt16(v) => v as i128,
        NumberScalar::UInt32(v) => v as i128,
        NumberScalar::UInt64(v) => v as i128,
        NumberScalar::Int8(v) => v as i128,
        NumberScalar::Int16(v) => v as i128,
        NumberScalar::Int32(v) => v as i128,
        NumberScalar::Int64(v) => v as i128,
        NumberScalar::Float32(v) => v as i128,
        NumberScalar::Float64(v) => v as i128,
    }
}

fn compare_numbers(a: NumberScalar, b: NumberScalar) -> (r: Option<Order>)
    ensures
        r == (if same_number_type(a, b) {
            Some(int_order(number_rank(a), number_rank(b)))
        } else {
            None
        }),
{
    let same = match (a, b) {
        (NumberScalar::UInt8(_), NumberScalar::UInt8(_)) => true,
        (NumberScalar::UInt16(_), NumberScalar::UInt16(_)) => true,
        (NumberScalar::UInt32(_), NumberScalar::UInt32(_)) => true,
        (NumberScalar::UInt64(_), NumberScalar::UInt64(_)) => true,
        (NumberScalar::Int8(_), NumberScalar::Int8(_)) => true,
        (NumberScalar::Int16(_), NumberScalar::Int16(_)) => true,
        (NumberScalar::Int32(_), NumberScalar::Int32(_)) => true,
        (NumberScalar::Int64(_), NumberScalar::Int64(_)) => true,
        (NumberScalar::Float32(_), NumberScalar::Float32(_)) => true,
        (NumberScalar::Float64(_), NumberScalar::Float64(_)) => true,
        _ => false,
    };
    if same {
        Some(compare_i128(rank(a), rank(b)))
    } else {
        None
    }
}

pub fn compare_scalars(a: &Scalar, b: &Scalar) -> (r: Option<Order>)
    ensures
        r == scalar_order(a@, b@),
    decreases a,
{
    if a.is_null() {
        return if b.is_null() {
            Some(Order::Equal)
        } else {
            Some(Order::Less)
        };
    }
    if b.is_null() {
        return Some(Order::Greater);
    }
    match (a, b) {
        (Scalar::EmptyArray, Scalar::EmptyArray) => Some(Order::Equal),
        (Scalar::EmptyMap, Scalar::EmptyMap) => Some(Order::Equal),
        (Scalar::Number(x), Scalar::Number(y)) => compare_numbers(*x, *y),
        (Scalar::Decimal(x), Scalar::Decimal(y)) => match (*x, *y) {
            (DecimalScalar::Decimal128(v, _), DecimalScalar::Decimal128(w, _)) => Some(
                compare_i128(v, w),
            ),
            (DecimalScalar::Decimal256(v, _), DecimalScalar::Decimal256(w, _)) => Some(
                compare_i256(v, w),
            ),
            _ => None,
        },
        (Scalar::Timestamp(x), Scalar::Timestamp(y)) => Some(compare_i128(*x as i128, *y as i128)),
        (Scalar::Date(x), Scalar::Date(y)) => Some(compare_i128(*x as i128, *y as i128)),
        (Scalar::Boolean(x), Scalar::Boolean(y)) => Some(compare_bool(*x, *y)),
        (Scalar::String(x), Scalar::String(y)) => Some(compare_bytes(x, y)),
        (Scalar::Array(x), Scalar::Array(y)) => compare_columns(x, y),
        (Scalar::Mapping(x), Scalar::Mapping(y)) => compare_columns(x, y),
        (Scalar::Bitmap(x), Scalar::Bitmap(y)) => Some(compare_bytes(x, y)),
        (Scalar::Tuple(x), Scalar::Tuple(y)) => compare_rows(x, y),
        (Scalar::Variant(x), Scalar::Variant(y)) => Some(compare_bytes(x, y)),
        _ => None,
    }
}

pub fn compare_columns(a: &Column, b: &Column) -> (r: Option<Order>)
    ensures
        r == rows_order(a@.rows, b@.rows, 0),
    decreases a,
{
    compare_rows(&a.rows, &b.rows)
}

pub fn compare_rows(a: &Vec<Scalar>, b: &Vec<Scalar>) -> (r: Option<Order>)
    ensures
        r == rows_order(scalar_views(a@), scalar_views(b@), 0),
    decreases a,
{
    let ghost va = scalar_views(a@);
    let ghost vb = scalar_views(b@);
    let mut i: usize = 0;
    while i < a.len() && i < b.len()
        invariant
            i <= a.len(),
            i <= b.len(),
            va == scalar_views(a@),
            vb == scalar_views(b@),
            rows_order(va, vb, 0) == rows_order(va, vb, i as nat),
        decreases a.len() - i,
    {
        assert(decreases_to!(a => a[i as int]));
        let o = compare_scalars(&a[i], &b[i]);
        assert(va[i as int] == scalar_view(a@[i as int]));
        assert(vb[i as int] == scalar_view(b@[i as int]));
        if !matches!(o, Some(Order::Equal)) {
            return o;
        }
        i += 1;
    }
    if i < a.len() {
        Some(Order::Greater)
    } else if i < b.len() {
        Some(Order::Less)
    } else {
        Some(Order::Equal)
    }
}

/// Two byte strings begin with the same `k` bytes.
pub open spec fn common_start(a: Seq<u8>, b: Seq<u8>, k: int) -> bool {
    0 <= k <= a.len() && k <= b.len() && forall|i: int| 0 <= i < k ==> #[trigger] a[i] == b[i]
}

/// A byte string does not come after another: the other begins with it, or at the first place
/// where the two differ it has the smaller byte.
pub open spec fn bytes_at_most(a: Seq<u8>, b: Seq<u8>) -> bool {
    exists|k: int| #[trigger] common_start(a, b, k) && (k == a.len() || (k < a.len() && k < b.len() && a[k] < b[k]))
}

/// A value does not come after another of its type.
pub open spec fn value_at_most(a: ScalarView, b: ScalarView) -> bool {
    match (a, b) {
        (ScalarView::Date(x), ScalarView::Date(y)) => x <= y,
        (ScalarView::Timestamp(x), ScalarView::Timestamp(y)) => x <= y,
        (ScalarView::Number(NumberScalar::UInt8(x)), ScalarView::Number(NumberScalar::UInt8(y))) => x <= y,
        (ScalarView::Number(NumberScalar::UInt16(x)), ScalarView::Number(NumberScalar::UInt16(y))) => x <= y,
        (ScalarView::Number(NumberScalar::UInt32(x)), ScalarView::Number(NumberScalar::UInt32(y))) => x <= y,
        (ScalarView::Number(NumberScalar::UInt64(x)), ScalarView::Number(NumberScalar::UInt64(y))) => x <= y,
        (ScalarView::Number(NumberScalar::Int8(x)), ScalarView::Number(NumberScalar::Int8(y))) => x <= y,
        (ScalarView::Number(NumberScalar::Int16(x)), ScalarView::Number(NumberScalar::Int16(y))) => x <= y,
        (ScalarView::Number(NumberScalar::Int32(x)), ScalarView::Number(NumberScalar::Int32(y))) => x <= y,
        (ScalarView::Number(NumberScalar::Int64(x)), ScalarView::Number(NumberScalar::Int64(y))) => x <= y,
        (ScalarView::Number(NumberScalar::Float32(x)), ScalarView::Number(NumberScalar::Float32(y))) => x <= y,
        (ScalarView::Number(NumberScalar::Float64(x)), ScalarView::Number(NumberScalar::Float64(y))) => x <= y,
        (ScalarView::String(x), ScalarView::String(y)) => bytes_at_most(x, y),
        _ => false,
    }
}

/// Dates are ordered by their day numbers.
pub proof fn dates_are_ordered_by_day(x: i32, y: i32)
    ensures
        scalar_order(ScalarView::Date(x), ScalarView::Date(y)) == Some(
            if x < y {
                Order::Less
            } else if y < x {
                Order::Greater
            } else {
                Order::Equal
            },
        ),
{
}

/// Timestamps are ordered by their time.
pub proof fn timestamps_are_ordered_by_time(x: i64, y: i64)
    ensures
        scalar_order(ScalarView::Timestamp(x), ScalarView::Timestamp(y)) == Some(
            if x < y {
                Order::Less
            } else if y < x {
                Order::Greater
            } else {
                Order::Equal
            },
        ),
{
}

/// Numbers of one type are ordered by their values, floats by their order keys. Numbers of two
/// types are not ordered.
pub proof fn numbers_are_ordered_by_value(a: NumberScalar, b: NumberScalar)
    ensures
        ({
            let is = |less: bool, greater: bool|
                scalar_order(ScalarView::Number(a), ScalarView::Number(b)) == Some(
                    if less {
                        Order::Less
                    } else if greater {
                        Order::Greater
                    } else {
                        Order::Equal
                    },
                );
            match (a, b) {
                (NumberScalar::UInt8(x), NumberScalar::UInt8(y)) => is(x < y, y < x),
                (NumberScalar::UInt16(x), NumberScalar::UInt16(y)) => is(x < y, y < x),
                (NumberScalar::UInt32(x), NumberScalar::UInt32(y)) => is(x < y, y < x),
                (NumberScalar::UInt64(x), NumberScalar::UInt64(y)) => is(x < y, y < x),
                (NumberScalar::Int8(x), NumberScalar::Int8(y)) => is(x < y, y < x),
                (NumberScalar::Int16(x), NumberScalar::Int16(y)) => is(x < y, y < x),
                (NumberScalar::Int32(x), NumberScalar::Int32(y)) => is(x < y, y < x),
                (NumberScalar::Int64(x), NumberScalar::Int64(y)) => is(x < y, y < x),
                (NumberScalar::Float32(x), NumberScalar::Float32(y)) => is(x < y, y < x),
                (NumberScalar::Float64(x), NumberScalar::Float64(y)) => is(x < y, y < x),
                _ => scalar_order(ScalarView::Number(a), ScalarView::Number(b)) is None,
            }
        }),
{
}

/// Decimals of one width are ordered by the integers that they are kept as: the high half decides,
/// and where it is the same the low half does.
pub proof fn decimals_are_ordered_by_value(a: DecimalScalar, b: DecimalScalar)
    ensures
        ({
            let is = |less: bool, greater: bool|
                scalar_order(ScalarView::Decimal(a), ScalarView::Decimal(b)) == Some(
                    if less {
                        Order::Less
                    } else if greater {
                        Order::Greater
                    } else {
                        Order::Equal
                    },
                );
            match (a, b) {
                (DecimalScalar::Decimal128(x, _), DecimalScalar::Decimal128(y, _)) => is(x < y, y < x),
                (DecimalScalar::Decimal256(x, _), DecimalScalar::Decimal256(y, _)) => is(
                    x.high < y.high || (x.high == y.high && x.low < y.low),
                    y.high < x.high || (x.high == y.high && y.low < x.low),
                ),
                _ => scalar_order(ScalarView::Decimal(a), ScalarView::Decimal(b)) is None,
            }
        }),
{
}

/// False comes before true.
pub proof fn false_comes_before_true(x: bool, y: bool)
    ensures
        scalar_order(ScalarView::Boolean(x), ScalarView::Boolean(y)) == Some(
            if !x && y {
                Order::Less
            } else if x && !y {
                Order::Greater
            } else {
                Order::Equal
            },
        ),
{
}

/// A missing value comes before every value, and two missing values are equal.
pub proof fn missing_values_come_first(missing: ScalarView, other: ScalarView)
    requires
        missing is Null || missing is NullOver,
    ensures
        other is Null || other is NullOver ==> scalar_order(missing, other) == Some(Order::Equal),
        !(other is Null || other is NullOver) ==> scalar_order(missing, other) == Some(Order::Less) && scalar_order(
            other,
            missing,
        ) == Some(Order::Greater),
{
}

/// The first byte in which two byte strings differ decides their order; where one begins with the
/// other, the shorter comes first; only the same bytes are equal.
pub proof fn the_first_difference_decides(a: Seq<u8>, b: Seq<u8>, k: int)
    requires
        common_start(a, b, k),
    ensures
        k < a.len() && k < b.len() && a[k] < b[k] ==> bytes_order(a, b) == Order::Less,
        k < a.len() && k < b.len() && a[k] > b[k] ==> bytes_order(a, b) == Order::Greater,
        k == a.len() && k < b.len() ==> bytes_order(a, b) == Order::Less,
        k < a.len() && k == b.len() ==> bytes_order(a, b) == Order::Greater,
        k == a.len() && k == b.len() ==> bytes_order(a, b) == Order::Equal,
    decreases k,
{
    if k > 0 {
        assert(a[0] == b[0]);
        assert forall|i: int| 0 <= i < k - 1 implies #[trigger] a.skip(1)[i] == b.skip(1)[i] by {
            assert(a[i + 1] == b[i + 1]);
        }
        the_first_difference_decides(a.skip(1), b.skip(1), k - 1);
    }
}

/// Two byte strings are the same from the start up to some place, where they differ or one ends.
proof fn lemma_difference(a: Seq<u8>, b: Seq<u8>, from: int) -> (k: int)
    requires
        common_start(a, b, from),
    ensures
        common_start(a, b, k),
        k == a.len() || k == b.len() || a[k] != b[k],
    decreases a.len() - from,
{
    if from < a.len() && from < b.len() && a[from] == b[from] {
        lemma_difference(a, b, from + 1)
    } else {
        from
    }
}

/// Strings, bitmaps and variants are ordered byte by byte.
pub proof fn strings_are_ordered_by_their_bytes(x: Seq<u8>, y: Seq<u8>)
    ensures
        bytes_order(x, y) != Order::Greater <==> bytes_at_most(x, y),
        bytes_order(x, y) == Order::Equal <==> x == y,
        scalar_order(ScalarView::String(x), ScalarView::String(y)) == Some(bytes_order(x, y)),
        scalar_order(ScalarView::Bitmap(x), ScalarView::Bitmap(y)) == Some(bytes_order(x, y)),
        scalar_order(ScalarView::Variant(x), ScalarView::Variant(y)) == Some(bytes_order(x, y)),
{
    let k = lemma_difference(x, y, 0);
    the_first_difference_decides(x, y, k);
    if bytes_at_most(x, y) {
        let j = choose|j: int|
            #[trigger] common_start(x, y, j) && (j == x.len() || (j < x.len() && j < y.len() && x[j] < y[j]));
        the_first_difference_decides(x, y, j);
    }
    if x == y {
        assert(common_start(x, y, x.len() as int));
        the_first_difference_decides(x, y, x.len() as int);
    }
    if k == x.len() && k == y.len() {
        assert(x =~= y);
    }
}

/// Arrays, maps and tuples are ordered by the first place where they differ; where one ends before
/// that, it comes first.
pub proof fn the_first_different_place_decides(a: Seq<ScalarView>, b: Seq<ScalarView>, from: nat, k: nat)
    requires
        from <= k <= a.len(),
        k <= b.len(),
        forall|i: int| from <= i < k ==> scalar_order(#[trigger] a[i], b[i]) == Some(Order::Equal),
    ensures
        k < a.len() && k < b.len() && scalar_order(a[k as int], b[k as int]) != Some(Order::Equal) ==> rows_order(
            a,
            b,
            from,
        ) == scalar_order(a[k as int], b[k as int]),
        k == a.len() && k < b.len() ==> rows_order(a, b, from) == Some(Order::Less),
        k < a.len() && k == b.len() ==> rows_order(a, b, from) == Some(Order::Greater),
        k == a.len() && k == b.len() ==> rows_order(a, b, from) == Some(Order::Equal),
    decreases k - from,
{
    if from < k {
        assert(scalar_order(a[from as int], b[from as int]) == Some(Order::Equal));
        the_first_different_place_decides(a, b, from + 1, k);
    }
}

/// Two arrays, maps or tuples are ordered as the values in them.
pub proof fn nested_values_are_ordered_from_the_first(
    x: ColumnView,
    y: ColumnView,
    s: Seq<ScalarView>,
    t: Seq<ScalarView>,
)
    ensures
        scalar_order(ScalarView::Array(x), ScalarView::Array(y)) == rows_order(x.rows, y.rows, 0),
        scalar_order(ScalarView::Mapping(x), ScalarView::Mapping(y)) == rows_order(
            x.rows,
            y.rows,
            0,
        ),
        scalar_order(ScalarView::Tuple(s), ScalarView::Tuple(t)) == rows_order(s, t, 0),
{
}

}
