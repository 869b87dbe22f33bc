//! Selection vectors: which rows of two columns stand in a given relation.
//!
//! A selection is a list of row numbers. A comparison splits the rows it is given into those
//! that pass, which are written to the true selection, and those that do not, which are
//! written to the false selection; both keep the order of the rows.

use vstd::prelude::*;

use crate::build_spill::are_the_places;
use crate::build_spill::numbers_are_the_places;
use crate::build_spill::numbers_where;
use crate::order::bool_order;
use crate::order::bytes_at_most;
use crate::order::bytes_order;
use crate::order::compare_bool;
use crate::order::compare_bytes;
use crate::order::compare_columns;
use crate::order::compare_i128;
use crate::order::compare_i256;
use crate::order::int_order;
use crate::order::number_rank;
use crate::order::rank;
use crate::order::rows_order;
use crate::order::scalar_order;
use crate::order::strings_are_ordered_by_their_bytes;
use crate::order::Order;
use crate::types::clone_bytes;
use crate::types::column_ok;
use crate::types::has_type;
use crate::types::infer_type;
use crate::types::is_null;
use crate::types::remove_nullable;
use crate::types::scalar_view;
use crate::types::scalar_views;
use crate::types::Column;
use crate::types::ColumnView;
use crate::types::DataType;
use crate::types::DecimalDataType;
use crate::types::DecimalScalar;
use crate::types::I256;
use crate::types::NumberScalar;
use crate::types::Scalar;
use crate::types::ScalarView;
use crate::types::TypeView;

verus! {

#[derive(Clone, Copy, Debug, PartialEq, Eq, Structural)]
pub enum SelectOp {
    Equal,
    NotEqual,
    Gt,
    Gte,
    Lt,
    Lte,
}

/// Where the rows to be tested come from.
#[derive(Clone, Copy, Debug, PartialEq, Eq, Structural)]
pub enum SelectStrategy {
    True,
    False,
    ALL,
}

/// Whether a comparison holds of two values in the given order. Values without an order are
/// different, and neither is the greater.
pub open spec fn op_holds(op: SelectOp, order: Option<Order>) -> bool {
    match op {
        SelectOp::Equal => order == Some(Order::Equal),
        SelectOp::NotEqual => order != Some(Order::Equal),
        SelectOp::Gt => order == Some(Order::Greater),
        SelectOp::Gte => order == Some(Order::Greater) || order == Some(Order::Equal),
        SelectOp::Lt => order == Some(Order::Less),
        SelectOp::Lte => order == Some(Order::Less) || order == Some(Order::Equal),
    }
}

fn apply_op(op: SelectOp, order: Option<Order>) -> (r: bool)
    ensures
        r == op_holds(op, order),
{
    match op {
        SelectOp::Equal => matches!(order, Some(Order::Equal)),
        SelectOp::NotEqual => !matches!(order, Some(Order::Equal)),
        SelectOp::Gt => matches!(order, Some(Order::Greater)),
        SelectOp::Gte => matches!(order, Some(Order::Greater) | Some(Order::Equal)),
        SelectOp::Lt => matches!(order, Some(Order::Less)),
        SelectOp::Lte => matches!(order, Some(Order::Less) | Some(Order::Equal)),
    }
}

/// A value that a selection can compare.
pub trait Comparable: Sized {
    spec fn order(self, other: Self) -> Option<Order>;

    fn compare(&self, other: &Self) -> (r: Option<Order>)
        ensures
            r == (*self).order(*other),
    ;
}

/// A fixed-width value.
pub trait Primitive: Comparable {

}

impl Comparable for i128 {
    open spec fn order(self, other: i128) -> Option<Order> {
        Some(int_order(self as int, other as int))
    }

    fn compare(&self, other: &i128) -> Option<Order> {
        Some(compare_i128(*self, *other))
    }
}

impl Primitive for i128 {

}

impl Comparable for u8 {
    open spec fn order(self, other: u8) -> Option<Order> {
        Some(int_order(self as int, other as int))
    }

    fn compare(&self, other: &u8) -> Option<Order> {
        Some(compare_i128(*self as i128, *other as i128))
    }
}

impl Primitive for u8 {

}

impl Comparable for u16 {
    open spec fn order(self, other: u16) -> Option<Order> {
        Some(int_order(self as int, other as int))
    }

    fn compare(&self, other: &u16) -> Option<Order> {
        Some(compare_i128(*self as i128, *other as i128))
    }
}

impl Primitive for u16 {

}

impl Comparable for u32 {
    open spec fn order(self, other: u32) -> Option<Order> {
        Some(int_order(self as int, other as int))
    }

    fn compare(&self, other: &u32) -> Option<Order> {
        Some(compare_i128(*self as i128, *other as i128))
    }
}

impl Primitive for u32 {

}

impl Comparable for u64 {
    open spec fn order(self, other: u64) -> Option<Order> {
        Some(int_order(self as int, other as int))
    }

    fn compare(&self, other: &u64) -> Option<Order> {
        Some(compare_i128(*self as i128, *other as i128))
    }
}

impl Primitive for u64 {

}

impl Comparable for i8 {
    open spec fn order(self, other: i8) -> Option<Order> {
        Some(int_order(self as int, other as int))
    }

    fn compare(&self, other: &i8) -> Option<Order> {
        Some(compare_i128(*self as i128, *other as i128))
    }
}

impl Primitive for i8 {

}

impl Comparable for i16 {
    open spec fn order(self, other: i16) -> Option<Order> {
        Some(int_order(self as int, other as int))
    }

    fn compare(&self, other: &i16) -> Option<Order> {
        Some(compare_i128(*self as i128, *other as i128))
    }
}

impl Primitive for i16 {

}

impl Comparable for i32 {
    open spec fn order(self, other: i32) -> Option<Order> {
        Some(int_order(self as int, other as int))
    }

    fn compare(&self, other: &i32) -> Option<Order> {
        Some(compare_i128(*self as i128, *other as i128))
    }
}

impl Primitive for i32 {

}

impl Comparable for i64 {
    open spec fn order(self, other: i64) -> Option<Order> {
        Some(int_order(self as int, other as int))
    }

    fn compare(&self, other: &i64) -> Option<Order> {
        Some(compare_i128(*self as i128, *other as i128))
    }
}

impl Primitive for i64 {

}

impl Comparable for I256 {
    open spec fn order(self, other: I256) -> Option<Order> {
        Some(int_order(self.value(), other.value()))
    }

    fn compare(&self, other: &I256) -> Option<Order> {
        Some(compare_i256(*self, *other))
    }
}

impl Primitive for I256 {

}

impl Comparable for bool {
    open spec fn order(self, other: bool) -> Option<Order> {
        Some(bool_order(self, other))
    }

    fn compare(&self, other: &bool) -> Option<Order> {
        Some(compare_bool(*self, *other))
    }
}

impl Comparable for Vec<u8> {
    open spec fn order(self, other: Vec<u8>) -> Option<Order> {
        Some(bytes_order(self@, other@))
    }

    fn compare(&self, other: &Vec<u8>) -> Option<Order> {
        Some(compare_bytes(self, other))
    }
}

impl Comparable for Column {
    open spec fn order(self, other: Column) -> Option<Order> {
        rows_order(self@.rows, other@.rows, 0)
    }

    fn compare(&self, other: &Column) -> Option<Order> {
        compare_columns(self, other)
    }
}

/// Whether row `idx` is valid and its two values stand in the relation.
pub open spec fn row_passes<T: Comparable>(
    op: SelectOp,
    left: Seq<T>,
    right: Seq<T>,
    validity: Option<Seq<bool>>,
    idx: u32,
) -> bool {
    &&& validity matches Some(v) ==> v[idx as int]
    &&& op_holds(op, left[idx as int].order(right[idx as int]))
}

/// The rows that are tested, in order: `count` entries of the true or the false selection from
/// its start index on, or the first `count` rows.
pub open spec fn candidates(
    strategy: SelectStrategy,
    true_selection: Seq<u32>,
    false_selection: Seq<u32>,
    true_start: int,
    false_start: int,
    count: usize,
) -> Seq<u32> {
    match strategy {
        SelectStrategy::True => true_selection.subrange(true_start, true_start + count),
        SelectStrategy::False => false_selection.subrange(false_start, false_start + count),
        SelectStrategy::ALL => Seq::new((count as u32) as nat, |i: int| i as u32),
    }
}

/// `buffer` with `values` written from position `start` on.
pub open spec fn written(buffer: Seq<u32>, start: int, values: Seq<u32>) -> Seq<u32> {
    Seq::new(
        buffer.len(),
        |i: int|
            if start <= i < start + values.len() {
                values[i - start]
            } else {
                buffer[i]
            },
    )
}

/// The rows that can be read: those that both columns and the validity have.
pub open spec fn readable_rows<T>(left: Seq<T>, right: Seq<T>, validity: Option<Seq<bool>>) -> int {
    let both = if left.len() <= right.len() {
        left.len() as int
    } else {
        right.len() as int
    };
    match validity {
        Some(v) => if v.len() < both {
            v.len() as int
        } else {
            both
        },
        None => both,
    }
}

pub open spec fn validity_view(v: Option<Vec<bool>>) -> Option<Seq<bool>> {
    match v {
        Some(b) => Some(b@),
        None => None,
    }
}

proof fn lemma_filter_step(sel: Seq<u32>, k: int, p: spec_fn(u32) -> bool)
    requires
        0 <= k < sel.len(),
    ensures
        sel.take(k + 1).filter(p) == (if p(sel[k]) {
            sel.take(k).filter(p).push(sel[k])
        } else {
            sel.take(k).filter(p)
        }),
{
    reveal(Seq::filter);
    assert(sel.take(k + 1).drop_last() =~= sel.take(k));
    assert(sel.take(k + 1).last() == sel[k]);
}

proof fn lemma_filter_prefix_len(sel: Seq<u32>, k: int, p: spec_fn(u32) -> bool)
    requires
        0 <= k <= sel.len(),
    ensures
        sel.take(k).filter(p).len() <= sel.filter(p).len(),
        sel.take(k).filter(p).len() <= k,
    decreases sel.len() - k,
{
    lemma_filter_len(sel.take(k), p);
    if k < sel.len() {
        lemma_filter_step(sel, k, p);
        lemma_filter_prefix_len(sel, k + 1, p);
    } else {
        assert(sel.take(k) =~= sel);
    }
}

proof fn lemma_filter_len(s: Seq<u32>, p: spec_fn(u32) -> bool)
    ensures
        s.filter(p).len() <= s.len(),
    decreases s.len(),
{
    reveal(Seq::filter);
    if s.len() > 0 {
        lemma_filter_len(s.drop_last(), p);
    }
}

/// The rows that pass and the rows that do not are all the rows.
proof fn lemma_filter_parts(s: Seq<u32>, p: spec_fn(u32) -> bool, q: spec_fn(u32) -> bool)
    requires
        forall|x: u32| #[trigger] q(x) == !p(x),
    ensures
        s.filter(p).len() + s.filter(q).len() == s.len(),
    decreases s.len(),
{
    reveal(Seq::filter);
    if s.len() > 0 {
        lemma_filter_parts(s.drop_last(), p, q);
        assert(q(s.last()) == !p(s.last()));
    }
}

/// Whether a split can be made: the tested rows are there to be read, and each selection that
/// is written to has room for the rows that it gets.
pub open spec fn can_split(
    pass: spec_fn(u32) -> bool,
    rows: int,
    write_true: bool,
    write_false: bool,
    strategy: SelectStrategy,
    true_selection: Seq<u32>,
    false_selection: Seq<u32>,
    true_start: int,
    false_start: int,
    count: usize,
) -> bool {
    let tested = candidates(strategy, true_selection, false_selection, true_start, false_start, count);
    &&& strategy is True ==> true_start + count <= true_selection.len()
    &&& strategy is False ==> false_start + count <= false_selection.len()
    &&& forall|k: int| 0 <= k < tested.len() ==> #[trigger] tested[k] < rows
    &&& write_true ==> true_start + tested.filter(pass).len() <= true_selection.len()
    &&& write_false ==> false_start + tested.filter(|i: u32| !pass(i)).len() <= false_selection.len()
}

/// What a split leaves behind: the tested rows that pass stand in the true selection from its
/// start index on, those that do not in the false selection, and each start index has moved
/// past them. A selection that is not asked for is left alone.
pub open spec fn is_split(
    pass: spec_fn(u32) -> bool,
    write_true: bool,
    write_false: bool,
    strategy: SelectStrategy,
    true_selection: Seq<u32>,
    false_selection: Seq<u32>,
    true_start: int,
    false_start: int,
    count: usize,
    new_true: Seq<u32>,
    new_false: Seq<u32>,
    new_true_idx: int,
    new_false_idx: int,
    selected: int,
) -> bool {
    let tested = candidates(strategy, true_selection, false_selection, true_start, false_start, count);
    let passed = tested.filter(pass);
    let failed = tested.filter(|i: u32| !pass(i));
    &&& new_true == if write_true {
        written(true_selection, true_start, passed)
    } else {
        true_selection
    }
    &&& new_true_idx == true_start + if write_true {
        passed.len() as int
    } else {
        0
    }
    &&& new_false == if write_false {
        written(false_selection, false_start, failed)
    } else {
        false_selection
    }
    &&& new_false_idx == false_start + if write_false {
        failed.len() as int
    } else {
        0
    }
    &&& selected == if write_true {
        passed.len() as int
    } else if write_false {
        count - failed.len()
    } else {
        count as int
    }
}

fn select_rows<T: Comparable, const TRUE: bool, const FALSE: bool>(
    op: SelectOp,
    left: &Vec<T>,
    right: &Vec<T>,
    validity: &Option<Vec<bool>>,
    true_selection: &mut [u32],
    false_selection: &mut [u32],
    true_start_idx: &mut usize,
    false_start_idx: &mut usize,
    select_strategy: SelectStrategy,
    count: usize,
) -> (selected: usize)
    requires
        can_split(
            |i: u32| row_passes(op, left@, right@, validity_view(*validity), i),
            readable_rows(left@, right@, validity_view(*validity)),
            TRUE,
            FALSE,
            select_strategy,
            old(true_selection)@,
            old(false_selection)@,
            *old(true_start_idx) as int,
            *old(false_start_idx) as int,
            count,
        ),
    ensures
        is_split(
            |i: u32| row_passes(op, left@, right@, validity_view(*validity), i),
            TRUE,
            FALSE,
            select_strategy,
            old(true_selection)@,
            old(false_selection)@,
            *old(true_start_idx) as int,
            *old(false_start_idx) as int,
            count,
            final(true_selection)@,
            final(false_selection)@,
            *final(true_start_idx) as int,
            *final(false_start_idx) as int,
            selected as int,
        ),
{
    let ghost true0 = true_selection@;
    let ghost false0 = false_selection@;
    let ghost vv = validity_view(*validity);
    let ghost p = |i: u32| row_passes(op, left@, right@, vv, i);
    let ghost q = |i: u32| !p(i);
    let true_start: usize = *true_start_idx;
    let false_start: usize = *false_start_idx;
    let true_len: usize = true_selection.len();
    let false_len: usize = false_selection.len();
    let ghost sel = candidates(
        select_strategy,
        true0,
        false0,
        true_start as int,
        false_start as int,
        count,
    );
    let n: usize = match select_strategy {
        SelectStrategy::ALL => (count as u32) as usize,
        _ => count,
    };
    let mut true_idx: usize = true_start;
    let mut false_idx: usize = false_start;
    let mut k: usize = 0;
    proof {
        reveal(Seq::filter);
        assert(sel.take(0).filter(p) =~= Seq::<u32>::empty());
        assert(sel.take(0).filter(q) =~= Seq::<u32>::empty());
        assert(true_selection@ =~= written(true0, true_start as int, sel.take(0).filter(p)));
        assert(false_selection@ =~= written(false0, false_start as int, sel.take(0).filter(q)));
    }
    while k < n
        invariant
            k <= n,
            n == sel.len(),
            true_len == true0.len(),
            false_len == false0.len(),
            vv == validity_view(*validity),
            p == (|i: u32| row_passes(op, left@, right@, vv, i)),
            q == (|i: u32| !p(i)),
            sel == candidates(
                select_strategy,
                true0,
                false0,
                true_start as int,
                false_start as int,
                count,
            ),
            can_split(
                p,
                readable_rows(left@, right@, vv),
                TRUE,
                FALSE,
                select_strategy,
                true0,
                false0,
                true_start as int,
                false_start as int,
                count,
            ),
            select_strategy is ALL || n == count,
            true_selection@ == if TRUE {
                written(true0, true_start as int, sel.take(k as int).filter(p))
            } else {
                true0
            },
            true_idx == true_start + if TRUE {
                sel.take(k as int).filter(p).len() as int
            } else {
                0
            },
            false_selection@ == if FALSE {
                written(false0, false_start as int, sel.take(k as int).filter(q))
            } else {
                false0
            },
            false_idx == false_start + if FALSE {
                sel.take(k as int).filter(q).len() as int
            } else {
                0
            },
        decreases n - k,
    {
        proof {
            lemma_filter_prefix_len(sel, k as int, p);
            lemma_filter_prefix_len(sel, k as int, q);
            lemma_filter_prefix_len(sel, k + 1, p);
            lemma_filter_prefix_len(sel, k + 1, q);
            lemma_filter_step(sel, k as int, p);
            lemma_filter_step(sel, k as int, q);
        }
        let idx: u32 = match select_strategy {
            SelectStrategy::True => true_selection[true_start + k],
            SelectStrategy::False => false_selection[false_start + k],
            SelectStrategy::ALL => k as u32,
        };
        assert(idx == sel[k as int]);
        let valid = match validity {
            Some(v) => v[idx as usize],
            None => true,
        };
        let passes = valid && apply_op(op, left[idx as usize].compare(&right[idx as usize]));
        assert(passes == p(idx));
        assert(q(idx) == !p(idx));
        if passes {
            if TRUE {
                true_selection[true_idx] = idx;
                true_idx += 1;
            }
        } else {
            if FALSE {
                false_selection[false_idx] = idx;
                false_idx += 1;
            }
        }
        proof {
            if TRUE {
                assert(true_selection@ =~= written(
                    true0,
                    true_start as int,
                    sel.take(k + 1).filter(p),
                ));
            }
            if FALSE {
                assert(false_selection@ =~= written(
                    false0,
                    false_start as int,
                    sel.take(k + 1).filter(q),
                ));
            }
        }
        k += 1;
    }
    proof {
        assert(sel.take(k as int) =~= sel);
        lemma_filter_parts(sel, p, q);
    }
    let true_count: usize = true_idx - true_start;
    let false_count: usize = false_idx - false_start;
    *true_start_idx = true_idx;
    *false_start_idx = false_idx;
    if TRUE {
        true_count
    } else {
        assert(count as u32 <= count) by (bit_vector);
        count - false_count
    }
}

/// Splits the tested rows of two columns of fixed-width values by a comparison. `TRUE` asks for the rows
/// that pass, `FALSE` for those that do not. Returns how many passed.
pub fn select_primitive<T: Primitive, const TRUE: bool, const FALSE: bool>(
    op: SelectOp,
    left: Vec<T>,
    right: Vec<T>,
    validity: Option<Vec<bool>>,
    true_selection: &mut [u32],
    false_selection: &mut [u32],
    true_start_idx: &mut usize,
    false_start_idx: &mut usize,
    select_strategy: SelectStrategy,
    count: usize,
) -> (selected: usize)
    requires
        can_split(
            |i: u32| row_passes(op, left@, right@, validity_view(validity), i),
            readable_rows(left@, right@, validity_view(validity)),
            TRUE,
            FALSE,
            select_strategy,
            old(true_selection)@,
            old(false_selection)@,
            *old(true_start_idx) as int,
            *old(false_start_idx) as int,
            count,
        ),
    ensures
        is_split(
            |i: u32| row_passes(op, left@, right@, validity_view(validity), i),
            TRUE,
            FALSE,
            select_strategy,
            old(true_selection)@,
            old(false_selection)@,
            *old(true_start_idx) as int,
            *old(false_start_idx) as int,
            count,
            final(true_selection)@,
            final(false_selection)@,
            *final(true_start_idx) as int,
            *final(false_start_idx) as int,
            selected as int,
        ),
{
    select_rows::<T, TRUE, FALSE>(
        op,
        &left,
        &right,
        &validity,
        true_selection,
        false_selection,
        true_start_idx,
        false_start_idx,
        select_strategy,
        count,
    )
}

/// Splits rows into the selections that are asked for: the true selection where it is not
/// empty, the false selection where `has_false` says so or where there is no true selection.
pub fn select_primitive_adapt<T: Primitive>(
    op: SelectOp,
    left: Vec<T>,
    right: Vec<T>,
    validity: Option<Vec<bool>>,
    true_selection: &mut [u32],
    false_selection: &mut [u32],
    has_false: bool,
    true_idx: &mut usize,
    false_idx: &mut usize,
    select_strategy: SelectStrategy,
    count: usize,
) -> (selected: usize)
    requires
        can_split(
            |i: u32| row_passes(op, left@, right@, validity_view(validity), i),
            readable_rows(left@, right@, validity_view(validity)),
            old(true_selection)@.len() > 0,
            has_false || old(true_selection)@.len() == 0,
            select_strategy,
            old(true_selection)@,
            old(false_selection)@,
            *old(true_idx) as int,
            *old(false_idx) as int,
            count,
        ),
    ensures
        is_split(
            |i: u32| row_passes(op, left@, right@, validity_view(validity), i),
            old(true_selection)@.len() > 0,
            has_false || old(true_selection)@.len() == 0,
            select_strategy,
            old(true_selection)@,
            old(false_selection)@,
            *old(true_idx) as int,
            *old(false_idx) as int,
            count,
            final(true_selection)@,
            final(false_selection)@,
            *final(true_idx) as int,
            *final(false_idx) as int,
            selected as int,
        ),
{
    let has_true = true_selection.len() > 0;
    if has_true && has_false {
        select_primitive::<_, true, true>(
            op,
            left,
            right,
            validity,
            true_selection,
            false_selection,
            true_idx,
            false_idx,
            select_strategy,
            count,
        )
    } else if has_true {
        select_primitive::<_, true, false>(
            op,
            left,
            right,
            validity,
            true_selection,
            false_selection,
            true_idx,
            false_idx,
            select_strategy,
            count,
        )
    } else {
        select_primitive::<_, false, true>(
            op,
            left,
            right,
            validity,
            true_selection,
            false_selection,
            true_idx,
            false_idx,
            select_strategy,
            count,
        )
    }
}

/// Splits the tested rows of two columns of byte strings by a comparison. `TRUE` asks for the rows
/// that pass, `FALSE` for those that do not. Returns how many passed.
pub fn select_string<const TRUE: bool, const FALSE: bool>(
    op: SelectOp,
    left: Vec<Vec<u8>>,
    right: Vec<Vec<u8>>,
    validity: Option<Vec<bool>>,
    true_selection: &mut [u32],
    false_selection: &mut [u32],
    true_start_idx: &mut usize,
    false_start_idx: &mut usize,
    select_strategy: SelectStrategy,
    count: usize,
) -> (selected: usize)
    requires
        can_split(
            |i: u32| row_passes(op, left@, right@, validity_view(validity), i),
            readable_rows(left@, right@, validity_view(validity)),
            TRUE,
            FALSE,
            select_strategy,
            old(true_selection)@,
            old(false_selection)@,
            *old(true_start_idx) as int,
            *old(false_start_idx) as int,
            count,
        ),
    ensures
        is_split(
            |i: u32| row_passes(op, left@, right@, validity_view(validity), i),
            TRUE,
            FALSE,
            select_strategy,
            old(true_selection)@,
            old(false_selection)@,
            *old(true_start_idx) as int,
            *old(false_start_idx) as int,
            count,
            final(true_selection)@,
            final(false_selection)@,
            *final(true_start_idx) as int,
            *final(false_start_idx) as int,
            selected as int,
        ),
{
    select_rows::<Vec<u8>, TRUE, FALSE>(
        op,
        &left,
        &right,
        &validity,
        true_selection,
        false_selection,
        true_start_idx,
        false_start_idx,
        select_strategy,
        count,
    )
}

/// Splits rows into the selections that are asked for: the true selection where it is not
/// empty, the false selection where `has_false` says so or where there is no true selection.
pub fn select_string_adapt(
    op: SelectOp,
    left: Vec<Vec<u8>>,
    right: Vec<Vec<u8>>,
    validity: Option<Vec<bool>>,
    true_selection: &mut [u32],
    false_selection: &mut [u32],
    has_false: bool,
    true_idx: &mut usize,
    false_idx: &mut usize,
    select_strategy: SelectStrategy,
    count: usize,
) -> (selected: usize)
    requires
        can_split(
            |i: u32| row_passes(op, left@, right@, validity_view(validity), i),
            readable_rows(left@, right@, validity_view(validity)),
            old(true_selection)@.len() > 0,
            has_false || old(true_selection)@.len() == 0,
            select_strategy,
            old(true_selection)@,
            old(false_selection)@,
            *old(true_idx) as int,
            *old(false_idx) as int,
            count,
        ),
    ensures
        is_split(
            |i: u32| row_passes(op, left@, right@, validity_view(validity), i),
            old(true_selection)@.len() > 0,
            has_false || old(true_selection)@.len() == 0,
            select_strategy,
            old(true_selection)@,
            old(false_selection)@,
            *old(true_idx) as int,
            *old(false_idx) as int,
            count,
            final(true_selection)@,
            final(false_selection)@,
            *final(true_idx) as int,
            *final(false_idx) as int,
            selected as int,
        ),
{
    let has_true = true_selection.len() > 0;
    if has_true && has_false {
        select_string::<true, true>(
            op,
            left,
            right,
            validity,
            true_selection,
            false_selection,
            true_idx,
            false_idx,
            select_strategy,
            count,
        )
    } else if has_true {
        select_string::<true, false>(
            op,
            left,
            right,
            validity,
            true_selection,
            false_selection,
            true_idx,
            false_idx,
            select_strategy,
            count,
        )
    } else {
        select_string::<false, true>(
            op,
            left,
            right,
            validity,
            true_selection,
            false_selection,
            true_idx,
            false_idx,
            select_strategy,
            count,
        )
    }
}

/// Splits the tested rows of two columns of booleans by a comparison. `TRUE` asks for the rows
/// that pass, `FALSE` for those that do not. Returns how many passed.
pub fn select_boolean<const TRUE: bool, const FALSE: bool>(
    op: SelectOp,
    left: Vec<bool>,
    right: Vec<bool>,
    validity: Option<Vec<bool>>,
    true_selection: &mut [u32],
    false_selection: &mut [u32],
    true_start_idx: &mut usize,
    false_start_idx: &mut usize,
    select_strategy: SelectStrategy,
    count: usize,
) -> (selected: usize)
    requires
        can_split(
            |i: u32| row_passes(op, left@, right@, validity_view(validity), i),
            readable_rows(left@, right@, validity_view(validity)),
            TRUE,
            FALSE,
            select_strategy,
            old(true_selection)@,
            old(false_selection)@,
            *old(true_start_idx) as int,
            *old(false_start_idx) as int,
            count,
        ),
    ensures
        is_split(
            |i: u32| row_passes(op, left@, right@, validity_view(validity), i),
            TRUE,
            FALSE,
            select_strategy,
            old(true_selection)@,
            old(false_selection)@,
            *old(true_start_idx) as int,
            *old(false_start_idx) as int,
            count,
            final(true_selection)@,
            final(false_selection)@,
            *final(true_start_idx) as int,
            *final(false_start_idx) as int,
            selected as int,
        ),
{
    select_rows::<bool, TRUE, FALSE>(
        op,
        &left,
        &right,
        &validity,
        true_selection,
        false_selection,
        true_start_idx,
        false_start_idx,
        select_strategy,
        count,
    )
}

/// Splits rows into the selections that are asked for: the true selection where it is not
/// empty, the false selection where `has_false` says so or where there is no true selection.
pub fn select_boolean_adapt(
    op: SelectOp,
    left: Vec<bool>,
    right: Vec<bool>,
    validity: Option<Vec<bool>>,
    true_selection: &mut [u32],
    false_selection: &mut [u32],
    has_false: bool,
    true_idx: &mut usize,
    false_idx: &mut usize,
    select_strategy: SelectStrategy,
    count: usize,
) -> (selected: usize)
    requires
        can_split(
            |i: u32| row_passes(op, left@, right@, validity_view(validity), i),
            readable_rows(left@, right@, validity_view(validity)),
            old(true_selection)@.len() > 0,
            has_false || old(true_selection)@.len() == 0,
            select_strategy,
            old(true_selection)@,
            old(false_selection)@,
            *old(true_idx) as int,
            *old(false_idx) as int,
            count,
        ),
    ensures
        is_split(
            |i: u32| row_passes(op, left@, right@, validity_view(validity), i),
            old(true_selection)@.len() > 0,
            has_false || old(true_selection)@.len() == 0,
            select_strategy,
            old(true_selection)@,
            old(false_selection)@,
            *old(true_idx) as int,
            *old(false_idx) as int,
            count,
            final(true_selection)@,
            final(false_selection)@,
            *final(true_idx) as int,
            *final(false_idx) as int,
            selected as int,
        ),
{
    let has_true = true_selection.len() > 0;
    if has_true && has_false {
        select_boolean::<true, true>(
            op,
            left,
            right,
            validity,
            true_selection,
            false_selection,
            true_idx,
            false_idx,
            select_strategy,
            count,
        )
    } else if has_true {
        select_boolean::<true, false>(
            op,
            left,
            right,
            validity,
            true_selection,
            false_selection,
            true_idx,
            false_idx,
            select_strategy,
            count,
        )
    } else {
        select_boolean::<false, true>(
            op,
            left,
            right,
            validity,
            true_selection,
            false_selection,
            true_idx,
            false_idx,
            select_strategy,
            count,
        )
    }
}

/// Splits the tested rows of two columns of arrays by a comparison. `TRUE` asks for the rows
/// that pass, `FALSE` for those that do not. Returns how many passed.
pub fn select_array<const TRUE: bool, const FALSE: bool>(
    op: SelectOp,
    left: Vec<Column>,
    right: Vec<Column>,
    validity: Option<Vec<bool>>,
    true_selection: &mut [u32],
    false_selection: &mut [u32],
    true_start_idx: &mut usize,
    false_start_idx: &mut usize,
    select_strategy: SelectStrategy,
    count: usize,
) -> (selected: usize)
    requires
        can_split(
            |i: u32| row_passes(op, left@, right@, validity_view(validity), i),
            readable_rows(left@, right@, validity_view(validity)),
            TRUE,
            FALSE,
            select_strategy,
            old(true_selection)@,
            old(false_selection)@,
            *old(true_start_idx) as int,
            *old(false_start_idx) as int,
            count,
        ),
    ensures
        is_split(
            |i: u32| row_passes(op, left@, right@, validity_view(validity), i),
            TRUE,
            FALSE,
            select_strategy,
            old(true_selection)@,
            old(false_selection)@,
            *old(true_start_idx) as int,
            *old(false_start_idx) as int,
            count,
            final(true_selection)@,
            final(false_selection)@,
            *final(true_start_idx) as int,
            *final(false_start_idx) as int,
            selected as int,
        ),
{
    select_rows::<Column, TRUE, FALSE>(
        op,
        &left,
        &right,
        &validity,
        true_selection,
        false_selection,
        true_start_idx,
        false_start_idx,
        select_strategy,
        count,
    )
}

/// Splits rows into the selections that are asked for: the true selection where it is not
/// empty, the false selection where `has_false` says so or where there is no true selection.
pub fn select_array_adapt(
    op: SelectOp,
    left: Vec<Column>,
    right: Vec<Column>,
    validity: Option<Vec<bool>>,
    true_selection: &mut [u32],
    false_selection: &mut [u32],
    has_false: bool,
    true_idx: &mut usize,
    false_idx: &mut usize,
    select_strategy: SelectStrategy,
    count: usize,
) -> (selected: usize)
    requires
        can_split(
            |i: u32| row_passes(op, left@, right@, validity_view(validity), i),
            readable_rows(left@, right@, validity_view(validity)),
            old(true_selection)@.len() > 0,
            has_false || old(true_selection)@.len() == 0,
            select_strategy,
            old(true_selection)@,
            old(false_selection)@,
            *old(true_idx) as int,
            *old(false_idx) as int,
            count,
        ),
    ensures
        is_split(
            |i: u32| row_passes(op, left@, right@, validity_view(validity), i),
            old(true_selection)@.len() > 0,
            has_false || old(true_selection)@.len() == 0,
            select_strategy,
            old(true_selection)@,
            old(false_selection)@,
            *old(true_idx) as int,
            *old(false_idx) as int,
            count,
            final(true_selection)@,
            final(false_selection)@,
            *final(true_idx) as int,
            *final(false_idx) as int,
            selected as int,
        ),
{
    let has_true = true_selection.len() > 0;
    if has_true && has_false {
        select_array::<true, true>(
            op,
            left,
            right,
            validity,
            true_selection,
            false_selection,
            true_idx,
            false_idx,
            select_strategy,
            count,
        )
    } else if has_true {
        select_array::<true, false>(
            op,
            left,
            right,
            validity,
            true_selection,
            false_selection,
            true_idx,
            false_idx,
            select_strategy,
            count,
        )
    } else {
        select_array::<false, true>(
            op,
            left,
            right,
            validity,
            true_selection,
            false_selection,
            true_idx,
            false_idx,
            select_strategy,
            count,
        )
    }
}

/// Whether row `idx` of two columns holds two values that stand in the relation.
pub open spec fn columns_pass(op: SelectOp, left: ColumnView, right: ColumnView, idx: u32) -> bool {
    &&& left.data_type is Nullable ==> !is_null(left.rows[idx as int])
    &&& right.data_type is Nullable ==> !is_null(right.rows[idx as int])
    &&& op_holds(op, scalar_order(left.rows[idx as int], right.rows[idx as int]))
}

/// Types without values: nothing is ever selected from their columns.
pub open spec fn has_no_values(t: TypeView) -> bool {
    t is Null || t is EmptyArray || t is EmptyMap
}

/// Whether columns of two types, neither nullable, can be compared row by row.
pub open spec fn comparable_types(l: TypeView, r: TypeView) -> bool {
    match (l, r) {
        (TypeView::Number(a), TypeView::Number(b)) => a == b,
        (
            TypeView::Decimal(DecimalDataType::Decimal128(_)),
            TypeView::Decimal(DecimalDataType::Decimal128(_)),
        ) => true,
        (
            TypeView::Decimal(DecimalDataType::Decimal256(_)),
            TypeView::Decimal(DecimalDataType::Decimal256(_)),
        ) => true,
        (TypeView::Date, TypeView::Date) => true,
        (TypeView::Timestamp, TypeView::Timestamp) => true,
        (TypeView::String, TypeView::String) => true,
        (TypeView::Variant, TypeView::Variant) => true,
        (TypeView::Bitmap, TypeView::Bitmap) => true,
        (TypeView::Boolean, TypeView::Boolean) => true,
        (TypeView::Array(_), TypeView::Array(_)) => true,
        (TypeView::Mapping(_), TypeView::Mapping(_)) => true,
        _ => false,
    }
}

pub open spec fn min_len(a: nat, b: nat) -> int {
    if a <= b {
        a as int
    } else {
        b as int
    }
}

/// The integer that a fixed-width value is ordered by.
spec fn fixed_rank(s: ScalarView) -> Option<int> {
    match s {
        ScalarView::Number(n) => Some(number_rank(n)),
        ScalarView::Decimal(DecimalScalar::Decimal128(v, _)) => Some(v as int),
        ScalarView::Date(d) => Some(d as int),
        ScalarView::Timestamp(t) => Some(t as int),
        _ => None,
    }
}

fn fixed_buffer(column: &Column) -> (r: Vec<i128>)
    ensures
        r.len() == column@.rows.len(),
        forall|i: int|
            0 <= i < r.len() ==> (fixed_rank(column@.rows[i]) matches Some(v) ==> (#[trigger] r@[i]) as int == v),
{
    let mut r: Vec<i128> = Vec::new();
    let mut i: usize = 0;
    let ghost rows = scalar_views(column.rows@);
    while i < column.rows.len()
        invariant
            i <= column.rows.len(),
            r.len() == i,
            rows == scalar_views(column.rows@),
            forall|j: int| 0 <= j < i ==> (fixed_rank(rows[j]) matches Some(v) ==> (#[trigger] r@[j]) as int == v),
        decreases column.rows.len() - i,
    {
        let v: i128 = match &column.rows[i] {
            Scalar::Number(n) => rank(*n),
            Scalar::Decimal(DecimalScalar::Decimal128(v, _)) => *v,
            Scalar::Date(d) => *d as i128,
            Scalar::Timestamp(t) => *t as i128,
            _ => 0,
        };
        assert(rows[i as int] == scalar_view(column.rows@[i as int]));
        r.push(v);
        i += 1;
    }
    r
}

fn wide_buffer(column: &Column) -> (r: Vec<I256>)
    ensures
        r.len() == column@.rows.len(),
        forall|i: int|
            0 <= i < r.len() ==> (column@.rows[i] matches ScalarView::Decimal(DecimalScalar::Decimal256(v, _)) ==> #[trigger] r@[i] == v),
{
    let mut r: Vec<I256> = Vec::new();
    let mut i: usize = 0;
    let ghost rows = scalar_views(column.rows@);
    while i < column.rows.len()
        invariant
            i <= column.rows.len(),
            r.len() == i,
            rows == scalar_views(column.rows@),
            forall|j: int|
                0 <= j < i ==> (rows[j] matches ScalarView::Decimal(DecimalScalar::Decimal256(v, _)) ==> #[trigger] r@[j] == v),
        decreases column.rows.len() - i,
    {
        let v = match &column.rows[i] {
            Scalar::Decimal(DecimalScalar::Decimal256(v, _)) => *v,
            _ => I256 { high: 0, low: 0 },
        };
        assert(rows[i as int] == scalar_view(column.rows@[i as int]));
        r.push(v);
        i += 1;
    }
    r
}

fn boolean_buffer(column: &Column) -> (r: Vec<bool>)
    ensures
        r.len() == column@.rows.len(),
        forall|i: int| 0 <= i < r.len() ==> (column@.rows[i] matches ScalarView::Boolean(v) ==> #[trigger] r@[i] == v),
{
    let mut r: Vec<bool> = Vec::new();
    let mut i: usize = 0;
    let ghost rows = scalar_views(column.rows@);
    while i < column.rows.len()
        invariant
            i <= column.rows.len(),
            r.len() == i,
            rows == scalar_views(column.rows@),
            forall|j: int| 0 <= j < i ==> (rows[j] matches ScalarView::Boolean(v) ==> #[trigger] r@[j] == v),
        decreases column.rows.len() - i,
    {
        let v = match &column.rows[i] {
            Scalar::Boolean(v) => *v,
            _ => false,
        };
        assert(rows[i as int] == scalar_view(column.rows@[i as int]));
        r.push(v);
        i += 1;
    }
    r
}

spec fn byte_string(s: ScalarView) -> Option<Seq<u8>> {
    match s {
        ScalarView::String(v) => Some(v),
        ScalarView::Variant(v) => Some(v),
        ScalarView::Bitmap(v) => Some(v),
        _ => None,
    }
}

fn string_buffer(column: &Column) -> (r: Vec<Vec<u8>>)
    ensures
        r.len() == column@.rows.len(),
        forall|i: int| 0 <= i < r.len() ==> (byte_string(column@.rows[i]) matches Some(v) ==> (#[trigger] r@[i])@ == v),
{
    let mut r: Vec<Vec<u8>> = Vec::new();
    let mut i: usize = 0;
    let ghost rows = scalar_views(column.rows@);
    while i < column.rows.len()
        invariant
            i <= column.rows.len(),
            r.len() == i,
            rows == scalar_views(column.rows@),
            forall|j: int| 0 <= j < i ==> (byte_string(rows[j]) matches Some(v) ==> (#[trigger] r@[j])@ == v),
        decreases column.rows.len() - i,
    {
        let v: Vec<u8> = match &column.rows[i] {
            Scalar::String(v) => clone_bytes(v),
            Scalar::Variant(v) => clone_bytes(v),
            Scalar::Bitmap(v) => clone_bytes(v),
            _ => Vec::new(),
        };
        assert(rows[i as int] == scalar_view(column.rows@[i as int]));
        r.push(v);
        i += 1;
    }
    r
}

spec fn array_value(s: ScalarView) -> Option<ColumnView> {
    match s {
        ScalarView::Array(v) => Some(v),
        ScalarView::Mapping(v) => Some(v),
        _ => None,
    }
}

fn array_buffer(column: &Column) -> (r: Vec<Column>)
    ensures
        r.len() == column@.rows.len(),
        forall|i: int| 0 <= i < r.len() ==> (array_value(column@.rows[i]) matches Some(v) ==> (#[trigger] r@[i])@ == v),
{
    let mut r: Vec<Column> = Vec::new();
    let mut i: usize = 0;
    let ghost rows = scalar_views(column.rows@);
    while i < column.rows.len()
        invariant
            i <= column.rows.len(),
            r.len() == i,
            rows == scalar_views(column.rows@),
            forall|j: int| 0 <= j < i ==> (array_value(rows[j]) matches Some(v) ==> (#[trigger] r@[j])@ == v),
        decreases column.rows.len() - i,
    {
        let v: Column = match &column.rows[i] {
            Scalar::Array(v) => v.clone(),
            Scalar::Mapping(v) => v.clone(),
            _ => Column { data_type: DataType::Null, rows: Vec::new() },
        };
        assert(rows[i as int] == scalar_view(column.rows@[i as int]));
        r.push(v);
        i += 1;
    }
    r
}

/// Whether row `i` is valid as far as a nullable column has a say.
spec fn row_valid(nullable: bool, rows: Seq<ScalarView>, i: int) -> bool {
    nullable ==> !is_null(rows[i])
}

/// The rows that are valid in both columns; `None` where neither column is nullable.
fn and_validities(left: &Column, right: &Column, left_nullable: bool, right_nullable: bool) -> (r: Option<Vec<bool>>)
    requires
        left_nullable && right_nullable ==> left@.rows.len() == right@.rows.len(),
    ensures
        r is None <==> !left_nullable && !right_nullable,
        r matches Some(v) ==> {
            &&& v@.len() == if left_nullable {
                left@.rows.len()
            } else {
                right@.rows.len()
            }
            &&& forall|i: int|
                0 <= i < v@.len() ==> #[trigger] v@[i] == (row_valid(left_nullable, left@.rows, i) && row_valid(
                    right_nullable,
                    right@.rows,
                    i,
                ))
        },
{
    if !left_nullable && !right_nullable {
        return None;
    }
    let len: usize = if left_nullable {
        left.rows.len()
    } else {
        right.rows.len()
    };
    let mut v: Vec<bool> = Vec::new();
    let mut i: usize = 0;
    let ghost lrows = scalar_views(left.rows@);
    let ghost rrows = scalar_views(right.rows@);
    while i < len
        invariant
            i <= len,
            v.len() == i,
            left_nullable ==> len == left.rows.len(),
            right_nullable ==> len == right.rows.len(),
            lrows == scalar_views(left.rows@),
            rrows == scalar_views(right.rows@),
            forall|j: int|
                0 <= j < i ==> #[trigger] v@[j] == (row_valid(left_nullable, lrows, j) && row_valid(right_nullable, rrows, j)),
        decreases len - i,
    {
        let l = !left_nullable || !left.rows[i].is_null();
        let r = !right_nullable || !right.rows[i].is_null();
        assert(left_nullable ==> lrows[i as int] == scalar_view(left.rows@[i as int]));
        assert(right_nullable ==> rrows[i as int] == scalar_view(right.rows@[i as int]));
        v.push(l && r);
        i += 1;
    }
    Some(v)
}

proof fn lemma_filter_same(s: Seq<u32>, p: spec_fn(u32) -> bool, q: spec_fn(u32) -> bool)
    requires
        forall|k: int| 0 <= k < s.len() ==> p(#[trigger] s[k]) == q(s[k]),
    ensures
        s.filter(p) == s.filter(q),
    decreases s.len(),
{
    reveal(Seq::filter);
    if s.len() > 0 {
        assert(p(s[s.len() - 1]) == q(s[s.len() - 1]));
        assert forall|k: int| 0 <= k < s.drop_last().len() implies p(#[trigger] s.drop_last()[k]) == q(s.drop_last()[k]) by {
            assert(p(s[k]) == q(s[k]));
        }
        lemma_filter_same(s.drop_last(), p, q);
    }
}

/// Buffers of values and a validity that say of every row what the two columns say.
spec fn buffers_agree<T: Comparable>(
    op: SelectOp,
    left: Seq<T>,
    right: Seq<T>,
    validity: Option<Seq<bool>>,
    l: ColumnView,
    r: ColumnView,
) -> bool {
    &&& left.len() == l.rows.len()
    &&& right.len() == r.rows.len()
    &&& readable_rows(left, right, validity) == min_len(l.rows.len(), r.rows.len())
    &&& forall|i: u32|
        i < min_len(l.rows.len(), r.rows.len()) ==> #[trigger] row_passes(op, left, right, validity, i) == columns_pass(op, l, r, i)
}

/// Two tests that agree on the rows that can be read split them alike.
proof fn lemma_split_same(tested: Seq<u32>, p: spec_fn(u32) -> bool, q: spec_fn(u32) -> bool, rows: int)
    requires
        forall|k: int| 0 <= k < tested.len() ==> #[trigger] tested[k] < rows,
        forall|i: u32| i < rows ==> #[trigger] p(i) == q(i),
    ensures
        tested.filter(p) == tested.filter(q),
        tested.filter(|i: u32| !p(i)) == tested.filter(|i: u32| !q(i)),
{
    lemma_filter_same(tested, p, q);
    lemma_filter_same(tested, |i: u32| !p(i), |i: u32| !q(i));
}

/// What a validity says of two columns.
spec fn validity_of(validity: Option<Seq<bool>>, l: ColumnView, r: ColumnView) -> bool {
    &&& validity is None <==> !(l.data_type is Nullable) && !(r.data_type is Nullable)
    &&& l.data_type is Nullable && r.data_type is Nullable ==> l.rows.len() == r.rows.len()
    &&& validity matches Some(v) ==> {
        &&& v.len() == if l.data_type is Nullable {
            l.rows.len()
        } else {
            r.rows.len()
        }
        &&& forall|i: int|
            0 <= i < v.len() ==> #[trigger] v[i] == (row_valid(l.data_type is Nullable, l.rows, i) && row_valid(
                r.data_type is Nullable,
                r.rows,
                i,
            ))
    }
}

proof fn lemma_fixed_agree(
    op: SelectOp,
    left: Seq<i128>,
    right: Seq<i128>,
    validity: Option<Seq<bool>>,
    l: ColumnView,
    r: ColumnView,
)
    requires
        column_ok(l),
        column_ok(r),
        validity_of(validity, l, r),
        left.len() == l.rows.len(),
        right.len() == r.rows.len(),
        comparable_types(remove_nullable(l.data_type), remove_nullable(r.data_type)),
        ({
            let t = remove_nullable(l.data_type);
            t is Number || t is Date || t is Timestamp || (t matches TypeView::Decimal(d) && d is Decimal128)
        }),
        forall|i: int| 0 <= i < left.len() ==> (fixed_rank(l.rows[i]) matches Some(v) ==> (#[trigger] left[i]) as int == v),
        forall|i: int| 0 <= i < right.len() ==> (fixed_rank(r.rows[i]) matches Some(v) ==> (#[trigger] right[i]) as int == v),
    ensures
        buffers_agree(op, left, right, validity, l, r),
{
    assert forall|i: u32| i < min_len(l.rows.len(), r.rows.len()) implies #[trigger] row_passes(
        op,
        left,
        right,
        validity,
        i,
    ) == columns_pass(op, l, r, i) by {
        let a = l.rows[i as int];
        let b = r.rows[i as int];
        assert(has_type(l.data_type, a));
        assert(has_type(r.data_type, b));
        assert(left[i as int] == left[i as int] && right[i as int] == right[i as int]);
        if !is_null(a) && !is_null(b) {
            assert(infer_type(a) == remove_nullable(l.data_type));
            assert(infer_type(b) == remove_nullable(r.data_type));
            assert(scalar_order(a, b) == left[i as int].order(right[i as int]));
        }
    }
}

proof fn lemma_wide_agree(
    op: SelectOp,
    left: Seq<I256>,
    right: Seq<I256>,
    validity: Option<Seq<bool>>,
    l: ColumnView,
    r: ColumnView,
)
    requires
        column_ok(l),
        column_ok(r),
        validity_of(validity, l, r),
        left.len() == l.rows.len(),
        right.len() == r.rows.len(),
        comparable_types(remove_nullable(l.data_type), remove_nullable(r.data_type)),
        ({
            let t = remove_nullable(l.data_type);
            t matches TypeView::Decimal(d) && d is Decimal256
        }),
        forall|i: int| 0 <= i < left.len() ==> (l.rows[i] matches ScalarView::Decimal(DecimalScalar::Decimal256(v, _)) ==> #[trigger] left[i] == v),
        forall|i: int| 0 <= i < right.len() ==> (r.rows[i] matches ScalarView::Decimal(DecimalScalar::Decimal256(v, _)) ==> #[trigger] right[i] == v),
    ensures
        buffers_agree(op, left, right, validity, l, r),
{
    assert forall|i: u32| i < min_len(l.rows.len(), r.rows.len()) implies #[trigger] row_passes(
        op,
        left,
        right,
        validity,
        i,
    ) == columns_pass(op, l, r, i) by {
        let a = l.rows[i as int];
        let b = r.rows[i as int];
        assert(has_type(l.data_type, a));
        assert(has_type(r.data_type, b));
        assert(left[i as int] == left[i as int] && right[i as int] == right[i as int]);
        if !is_null(a) && !is_null(b) {
            assert(infer_type(a) == remove_nullable(l.data_type));
            assert(infer_type(b) == remove_nullable(r.data_type));
            assert(scalar_order(a, b) == left[i as int].order(right[i as int]));
        }
    }
}

proof fn lemma_string_agree(
    op: SelectOp,
    left: Seq<Vec<u8>>,
    right: Seq<Vec<u8>>,
    validity: Option<Seq<bool>>,
    l: ColumnView,
    r: ColumnView,
)
    requires
        column_ok(l),
        column_ok(r),
        validity_of(validity, l, r),
        left.len() == l.rows.len(),
        right.len() == r.rows.len(),
        comparable_types(remove_nullable(l.data_type), remove_nullable(r.data_type)),
        ({
            let t = remove_nullable(l.data_type);
            t is String || t is Variant || t is Bitmap
        }),
        forall|i: int| 0 <= i < left.len() ==> (byte_string(l.rows[i]) matches Some(v) ==> (#[trigger] left[i])@ == v),
        forall|i: int| 0 <= i < right.len() ==> (byte_string(r.rows[i]) matches Some(v) ==> (#[trigger] right[i])@ == v),
    ensures
        buffers_agree(op, left, right, validity, l, r),
{
    assert forall|i: u32| i < min_len(l.rows.len(), r.rows.len()) implies #[trigger] row_passes(
        op,
        left,
        right,
        validity,
        i,
    ) == columns_pass(op, l, r, i) by {
        let a = l.rows[i as int];
        let b = r.rows[i as int];
        assert(has_type(l.data_type, a));
        assert(has_type(r.data_type, b));
        assert(left[i as int] == left[i as int] && right[i as int] == right[i as int]);
        if !is_null(a) && !is_null(b) {
            assert(infer_type(a) == remove_nullable(l.data_type));
            assert(infer_type(b) == remove_nullable(r.data_type));
            assert(scalar_order(a, b) == left[i as int].order(right[i as int]));
        }
    }
}

proof fn lemma_boolean_agree(
    op: SelectOp,
    left: Seq<bool>,
    right: Seq<bool>,
    validity: Option<Seq<bool>>,
    l: ColumnView,
    r: ColumnView,
)
    requires
        column_ok(l),
        column_ok(r),
        validity_of(validity, l, r),
        left.len() == l.rows.len(),
        right.len() == r.rows.len(),
        comparable_types(remove_nullable(l.data_type), remove_nullable(r.data_type)),
        ({
            let t = remove_nullable(l.data_type);
            t is Boolean
        }),
        forall|i: int| 0 <= i < left.len() ==> (l.rows[i] matches ScalarView::Boolean(v) ==> #[trigger] left[i] == v),
        forall|i: int| 0 <= i < right.len() ==> (r.rows[i] matches ScalarView::Boolean(v) ==> #[trigger] right[i] == v),
    ensures
        buffers_agree(op, left, right, validity, l, r),
{
    assert forall|i: u32| i < min_len(l.rows.len(), r.rows.len()) implies #[trigger] row_passes(
        op,
        left,
        right,
        validity,
        i,
    ) == columns_pass(op, l, r, i) by {
        let a = l.rows[i as int];
        let b = r.rows[i as int];
        assert(has_type(l.data_type, a));
        assert(has_type(r.data_type, b));
        assert(left[i as int] == left[i as int] && right[i as int] == right[i as int]);
        if !is_null(a) && !is_null(b) {
            assert(infer_type(a) == remove_nullable(l.data_type));
            assert(infer_type(b) == remove_nullable(r.data_type));
            assert(scalar_order(a, b) == left[i as int].order(right[i as int]));
        }
    }
}

proof fn lemma_array_agree(
    op: SelectOp,
    left: Seq<Column>,
    right: Seq<Column>,
    validity: Option<Seq<bool>>,
    l: ColumnView,
    r: ColumnView,
)
    requires
        column_ok(l),
        column_ok(r),
        validity_of(validity, l, r),
        left.len() == l.rows.len(),
        right.len() == r.rows.len(),
        comparable_types(remove_nullable(l.data_type), remove_nullable(r.data_type)),
        ({
            let t = remove_nullable(l.data_type);
            t is Array || t is Mapping
        }),
        forall|i: int| 0 <= i < left.len() ==> (array_value(l.rows[i]) matches Some(v) ==> (#[trigger] left[i])@ == v),
        forall|i: int| 0 <= i < right.len() ==> (array_value(r.rows[i]) matches Some(v) ==> (#[trigger] right[i])@ == v),
    ensures
        buffers_agree(op, left, right, validity, l, r),
{
    assert forall|i: u32| i < min_len(l.rows.len(), r.rows.len()) implies #[trigger] row_passes(
        op,
        left,
        right,
        validity,
        i,
    ) == columns_pass(op, l, r, i) by {
        let a = l.rows[i as int];
        let b = r.rows[i as int];
        assert(has_type(l.data_type, a));
        assert(has_type(r.data_type, b));
        assert(left[i as int] == left[i as int] && right[i as int] == right[i as int]);
        if !is_null(a) && !is_null(b) {
            assert(infer_type(a) == remove_nullable(l.data_type));
            assert(infer_type(b) == remove_nullable(r.data_type));
            assert(scalar_order(a, b) == left[i as int].order(right[i as int]));
        }
    }
}

/// Splits the tested rows of two columns of one type by a comparison, whatever the type;
/// a row in which either side is missing does not pass. Returns how many passed.
///
/// `true_selection` is filled where it is not empty, `false_selection` where `has_false` says
/// so or where there is no true selection.
pub fn select_columns(
    op: SelectOp,
    left: Column,
    right: Column,
    left_data_type: DataType,
    right_data_type: DataType,
    true_selection: &mut [u32],
    false_selection: &mut [u32],
    has_false: bool,
    true_idx: &mut usize,
    false_idx: &mut usize,
    select_strategy: SelectStrategy,
    count: usize,
) -> (selected: usize)
    requires
        left@.data_type == left_data_type@,
        right@.data_type == right_data_type@,
        column_ok(left@),
        column_ok(right@),
        left@.data_type is Nullable && right@.data_type is Nullable ==> left@.rows.len() == right@.rows.len(),
        has_no_values(remove_nullable(left@.data_type)) || {
            &&& comparable_types(remove_nullable(left@.data_type), remove_nullable(right@.data_type))
            &&& can_split(
                |i: u32| columns_pass(op, left@, right@, i),
                min_len(left@.rows.len(), right@.rows.len()),
                old(true_selection)@.len() > 0,
                has_false || old(true_selection)@.len() == 0,
                select_strategy,
                old(true_selection)@,
                old(false_selection)@,
                *old(true_idx) as int,
                *old(false_idx) as int,
                count,
            )
        },
    ensures
        has_no_values(remove_nullable(left@.data_type)) ==> {
            &&& selected == 0
            &&& final(true_selection)@ == old(true_selection)@
            &&& final(false_selection)@ == old(false_selection)@
            &&& *final(true_idx) == *old(true_idx)
            &&& *final(false_idx) == *old(false_idx)
        },
        !has_no_values(remove_nullable(left@.data_type)) ==> is_split(
            |i: u32| columns_pass(op, left@, right@, i),
            old(true_selection)@.len() > 0,
            has_false || old(true_selection)@.len() == 0,
            select_strategy,
            old(true_selection)@,
            old(false_selection)@,
            *old(true_idx) as int,
            *old(false_idx) as int,
            count,
            final(true_selection)@,
            final(false_selection)@,
            *final(true_idx) as int,
            *final(false_idx) as int,
            selected as int,
        ),
{
    let left_nullable = matches!(left_data_type, DataType::Nullable(_));
    let right_nullable = matches!(right_data_type, DataType::Nullable(_));
    let validity = and_validities(&left, &right, left_nullable, right_nullable);
    let ghost vv = validity_view(validity);
    let ghost lv = left@;
    let ghost rv = right@;
    let ghost tested = candidates(
        select_strategy,
        true_selection@,
        false_selection@,
        *true_idx as int,
        *false_idx as int,
        count,
    );
    let stripped = left_data_type.remove_nullable();
    match stripped {
        DataType::Null | DataType::EmptyArray | DataType::EmptyMap => 0,
        DataType::Number(_) | DataType::Decimal(DecimalDataType::Decimal128(_)) | DataType::Date | DataType::Timestamp => {
            let l = fixed_buffer(&left);
            let r = fixed_buffer(&right);
            proof {
                lemma_fixed_agree(op, l@, r@, vv, lv, rv);
                lemma_split_same(
                    tested,
                    |i: u32| row_passes(op, l@, r@, vv, i),
                    |i: u32| columns_pass(op, lv, rv, i),
                    min_len(lv.rows.len(), rv.rows.len()),
                );
            }
            select_primitive_adapt(
                op,
                l,
                r,
                validity,
                true_selection,
                false_selection,
                has_false,
                true_idx,
                false_idx,
                select_strategy,
                count,
            )
        },
        DataType::Decimal(DecimalDataType::Decimal256(_)) => {
            let l = wide_buffer(&left);
            let r = wide_buffer(&right);
            proof {
                lemma_wide_agree(op, l@, r@, vv, lv, rv);
                lemma_split_same(
                    tested,
                    |i: u32| row_passes(op, l@, r@, vv, i),
                    |i: u32| columns_pass(op, lv, rv, i),
                    min_len(lv.rows.len(), rv.rows.len()),
                );
            }
            select_primitive_adapt(
                op,
                l,
                r,
                validity,
                true_selection,
                false_selection,
                has_false,
                true_idx,
                false_idx,
                select_strategy,
                count,
            )
        },
        DataType::String | DataType::Variant | DataType::Bitmap => {
            let l = string_buffer(&left);
            let r = string_buffer(&right);
            proof {
                lemma_string_agree(op, l@, r@, vv, lv, rv);
                lemma_split_same(
                    tested,
                    |i: u32| row_passes(op, l@, r@, vv, i),
                    |i: u32| columns_pass(op, lv, rv, i),
                    min_len(lv.rows.len(), rv.rows.len()),
                );
            }
            select_string_adapt(
                op,
                l,
                r,
                validity,
                true_selection,
                false_selection,
                has_false,
                true_idx,
                false_idx,
                select_strategy,
                count,
            )
        },
        DataType::Boolean => {
            let l = boolean_buffer(&left);
            let r = boolean_buffer(&right);
            proof {
                lemma_boolean_agree(op, l@, r@, vv, lv, rv);
                lemma_split_same(
                    tested,
                    |i: u32| row_passes(op, l@, r@, vv, i),
                    |i: u32| columns_pass(op, lv, rv, i),
                    min_len(lv.rows.len(), rv.rows.len()),
                );
            }
            select_boolean_adapt(
                op,
                l,
                r,
                validity,
                true_selection,
                false_selection,
                has_false,
                true_idx,
                false_idx,
                select_strategy,
                count,
            )
        },
        _ => {
            let l = array_buffer(&left);
            let r = array_buffer(&right);
            proof {
                lemma_array_agree(op, l@, r@, vv, lv, rv);
                lemma_split_same(
                    tested,
                    |i: u32| row_passes(op, l@, r@, vv, i),
                    |i: u32| columns_pass(op, lv, rv, i),
                    min_len(lv.rows.len(), rv.rows.len()),
                );
            }
            select_array_adapt(
                op,
                l,
                r,
                validity,
                true_selection,
                false_selection,
                has_false,
                true_idx,
                false_idx,
                select_strategy,
                count,
            )
        },
    }
}

/// A split loses no row and doubles none: what it writes to the two selections are the rows that
/// were tested, each as often as it was tested, those that pass on the one side and the others on
/// the other.
pub proof fn a_split_keeps_every_row(
    pass: spec_fn(u32) -> bool,
    rows: int,
    strategy: SelectStrategy,
    true_selection: Seq<u32>,
    false_selection: Seq<u32>,
    true_start: int,
    false_start: int,
    count: usize,
    new_true: Seq<u32>,
    new_false: Seq<u32>,
    new_true_idx: int,
    new_false_idx: int,
    selected: int,
)
    requires
        0 <= true_start,
        0 <= false_start,
        can_split(
            pass,
            rows,
            true,
            true,
            strategy,
            true_selection,
            false_selection,
            true_start,
            false_start,
            count,
        ),
        is_split(
            pass,
            true,
            true,
            strategy,
            true_selection,
            false_selection,
            true_start,
            false_start,
            count,
            new_true,
            new_false,
            new_true_idx,
            new_false_idx,
            selected,
        ),
    ensures
        ({
            let tested = candidates(strategy, true_selection, false_selection, true_start, false_start, count);
            let passed = new_true.subrange(true_start, new_true_idx);
            let failed = new_false.subrange(false_start, new_false_idx);
            &&& passed.len() + failed.len() == tested.len()
            &&& passed.to_multiset().add(failed.to_multiset()) == tested.to_multiset()
            &&& forall|i: int| 0 <= i < passed.len() ==> pass(#[trigger] passed[i])
            &&& forall|i: int| 0 <= i < failed.len() ==> !pass(#[trigger] failed[i])
            &&& selected == passed.len()
        }),
{
    let tested = candidates(strategy, true_selection, false_selection, true_start, false_start, count);
    let fail = |i: u32| !pass(i);
    lemma_filter_parts(tested, pass, fail);
    lemma_filter_multisets(tested, pass, fail);
    assert(new_true.subrange(true_start, new_true_idx) =~= tested.filter(pass));
    assert(new_false.subrange(false_start, new_false_idx) =~= tested.filter(fail));
    lemma_filter_holds(tested, pass);
    lemma_filter_holds(tested, fail);
}

/// Two splits one after the other, the second of the rows that passed the first, leave the rows
/// that pass both, in the order in which they were.
pub proof fn splits_combine(
    first: spec_fn(u32) -> bool,
    second: spec_fn(u32) -> bool,
    tested: Seq<u32>,
)
    ensures
        tested.filter(first).filter(second) == tested.filter(|i: u32| first(i) && second(i)),
    decreases tested.len(),
{
    reveal(Seq::filter);
    if tested.len() > 0 {
        splits_combine(first, second, tested.drop_last());
        let before = tested.drop_last().filter(first);
        if first(tested.last()) {
            let now = before.push(tested.last());
            assert(now.drop_last() =~= before);
            assert(now.last() == tested.last());
        }
    }
}

proof fn lemma_filter_holds(s: Seq<u32>, p: spec_fn(u32) -> bool)
    ensures
        forall|i: int| 0 <= i < s.filter(p).len() ==> p(#[trigger] s.filter(p)[i]),
    decreases s.len(),
{
    reveal(Seq::filter);
    if s.len() > 0 {
        lemma_filter_holds(s.drop_last(), p);
    }
}

proof fn lemma_filter_multisets(s: Seq<u32>, p: spec_fn(u32) -> bool, q: spec_fn(u32) -> bool)
    requires
        forall|x: u32| #[trigger] q(x) == !p(x),
    ensures
        s.filter(p).to_multiset().add(s.filter(q).to_multiset()) == s.to_multiset(),
    decreases s.len(),
{
    reveal(Seq::filter);
    s.to_multiset_ensures();
    if s.len() > 0 {
        let rest = s.drop_last();
        let last = s.last();
        lemma_filter_multisets(rest, p, q);
        rest.to_multiset_ensures();
        rest.filter(p).to_multiset_ensures();
        rest.filter(q).to_multiset_ensures();
        assert(s =~= rest.push(last));
        assert(q(last) == !p(last));
        assert(s.filter(p).to_multiset().add(s.filter(q).to_multiset()) =~= s.to_multiset());
    } else {
        assert(s =~= Seq::<u32>::empty());
        assert(s.filter(p).to_multiset().add(s.filter(q).to_multiset()) =~= s.to_multiset());
    }
}

/// Whether a row passes is decided by the two values in it: dates by their days, timestamps by
/// their times, numbers and decimals by their values, false before true, strings byte by byte. A
/// row in which a value is missing never passes.
pub proof fn a_row_passes_by_its_values(op: SelectOp, l: ColumnView, r: ColumnView, i: u32)
    ensures
        ({
            let a = l.rows[i as int];
            let b = r.rows[i as int];
            let passes = columns_pass(op, l, r, i);
            let is = |less: bool, greater: bool|
                passes == match op {
                    SelectOp::Equal => !less && !greater,
                    SelectOp::NotEqual => less || greater,
                    SelectOp::Gt => greater,
                    SelectOp::Gte => !less,
                    SelectOp::Lt => less,
                    SelectOp::Lte => !greater,
                };
            &&& match (a, b) {
                (ScalarView::Date(x), ScalarView::Date(y)) => is(x < y, y < x),
                (ScalarView::Timestamp(x), ScalarView::Timestamp(y)) => is(x < y, y < x),
                (ScalarView::Boolean(x), ScalarView::Boolean(y)) => is(!x && y, x && !y),
                (ScalarView::Number(m), ScalarView::Number(n)) => match (m, n) {
                    (NumberScalar::UInt8(x), NumberScalar::UInt8(y)) => is(x < y, y < x),
                    (NumberScalar::UInt16(x), NumberScalar::UInt16(y)) => is(x < y, y < x),
                    (NumberScalar::UInt32(x), NumberScalar::UInt32(y)) => is(x < y, y < x),
                    (NumberScalar::UInt64(x), NumberScalar::UInt64(y)) => is(x < y, y < x),
                    (NumberScalar::Int8(x), NumberScalar::Int8(y)) => is(x < y, y < x),
                    (NumberScalar::Int16(x), NumberScalar::Int16(y)) => is(x < y, y < x),
                    (NumberScalar::Int32(x), NumberScalar::Int32(y)) => is(x < y, y < x),
                    (NumberScalar::Int64(x), NumberScalar::Int64(y)) => is(x < y, y < x),
                    (NumberScalar::Float32(x), NumberScalar::Float32(y)) => is(x < y, y < x),
                    (NumberScalar::Float64(x), NumberScalar::Float64(y)) => is(x < y, y < x),
                    _ => true,
                },
                (ScalarView::Decimal(m), ScalarView::Decimal(n)) => match (m, n) {
                    (DecimalScalar::Decimal128(x, _), DecimalScalar::Decimal128(y, _)) => is(x < y, y < x),
                    (DecimalScalar::Decimal256(x, _), DecimalScalar::Decimal256(y, _)) => is(
                        x.high < y.high || (x.high == y.high && x.low < y.low),
                        y.high < x.high || (x.high == y.high && y.low < x.low),
                    ),
                    _ => true,
                },
                (ScalarView::String(x), ScalarView::String(y)) => is(!bytes_at_most(y, x), !bytes_at_most(x, y)),
                (ScalarView::Bitmap(x), ScalarView::Bitmap(y)) => is(!bytes_at_most(y, x), !bytes_at_most(x, y)),
                (ScalarView::Variant(x), ScalarView::Variant(y)) => is(!bytes_at_most(y, x), !bytes_at_most(x, y)),
                _ => true,
            }
            &&& l.data_type is Nullable && (a is Null || a is NullOver) ==> !passes
            &&& r.data_type is Nullable && (b is Null || b is NullOver) ==> !passes
        }),
{
    match (l.rows[i as int], r.rows[i as int]) {
        (ScalarView::String(x), ScalarView::String(y)) => lemma_bytes_both_ways(x, y),
        (ScalarView::Bitmap(x), ScalarView::Bitmap(y)) => lemma_bytes_both_ways(x, y),
        (ScalarView::Variant(x), ScalarView::Variant(y)) => lemma_bytes_both_ways(x, y),
        _ => {},
    }
}

proof fn lemma_bytes_both_ways(x: Seq<u8>, y: Seq<u8>)
    ensures
        bytes_order(x, y) == Order::Less <==> !bytes_at_most(y, x),
        bytes_order(x, y) == Order::Greater <==> !bytes_at_most(x, y),
{
    strings_are_ordered_by_their_bytes(x, y);
    strings_are_ordered_by_their_bytes(y, x);
    lemma_turned_round(x, y);
}

/// What comes before the one way round comes after the other way round.
proof fn lemma_turned_round(x: Seq<u8>, y: Seq<u8>)
    ensures
        bytes_order(x, y) == Order::Less <==> bytes_order(y, x) == Order::Greater,
        bytes_order(x, y) == Order::Greater <==> bytes_order(y, x) == Order::Less,
    decreases x.len(),
{
    if x.len() > 0 && y.len() > 0 {
        lemma_turned_round(x.skip(1), y.skip(1));
    }
}

/// A test picks the tested rows at the places where it holds.
proof fn lemma_filter_places(tested: Seq<u32>, pass: spec_fn(u32) -> bool, n: nat)
    requires
        n <= tested.len(),
    ensures
        tested.take(n as int).filter(pass) == numbers_where(n, |k: int| pass(tested[k])).map_values(|k: int| tested[k]),
    decreases n,
{
    let test = |k: int| pass(tested[k]);
    let at = |k: int| tested[k];
    if n > 0 {
        lemma_filter_places(tested, pass, (n - 1) as nat);
        lemma_filter_step(tested, n - 1, pass);
        let before = numbers_where((n - 1) as nat, test);
        assert(before.push(n - 1).map_values(at) =~= before.map_values(at).push(tested[n - 1]));
    } else {
        reveal(Seq::filter);
        assert(numbers_where(0, test).map_values(at) =~= Seq::<u32>::empty());
        assert(tested.take(0).filter(pass) =~= Seq::<u32>::empty());
    }
}

/// What a split says in terms of rows: the tested rows are the first `count` rows, or `count` rows
/// of a selection from its start index on. Those that pass are written to the true selection and
/// the others to the false selection, one after the other, without a gap, in the order in which
/// they were tested; what a selection holds before and behind them stays; and the number of rows
/// that pass comes back.
pub proof fn a_split_goes_by_the_test(
    pass: spec_fn(u32) -> bool,
    rows: int,
    write_true: bool,
    write_false: bool,
    strategy: SelectStrategy,
    true_selection: Seq<u32>,
    false_selection: Seq<u32>,
    true_start: int,
    false_start: int,
    count: usize,
    new_true: Seq<u32>,
    new_false: Seq<u32>,
    new_true_idx: int,
    new_false_idx: int,
    selected: int,
)
    requires
        0 <= true_start,
        0 <= false_start,
        count <= u32::MAX,
        write_true || write_false,
        can_split(
            pass,
            rows,
            write_true,
            write_false,
            strategy,
            true_selection,
            false_selection,
            true_start,
            false_start,
            count,
        ),
        is_split(
            pass,
            write_true,
            write_false,
            strategy,
            true_selection,
            false_selection,
            true_start,
            false_start,
            count,
            new_true,
            new_false,
            new_true_idx,
            new_false_idx,
            selected,
        ),
    ensures
        ({
            let tested = |k: int|
                match strategy {
                    SelectStrategy::ALL => k as u32,
                    SelectStrategy::True => true_selection[true_start + k],
                    SelectStrategy::False => false_selection[false_start + k],
                };
            let good = |k: int| pass(tested(k));
            let bad = |k: int| !pass(tested(k));
            &&& exists|places: Seq<int>|
                {
                    &&& #[trigger] are_the_places(places, count as int, good)
                    &&& selected == places.len()
                    &&& if write_true {
                        stands_at(true_selection, true_start, places, tested, new_true, new_true_idx)
                    } else {
                        new_true == true_selection && new_true_idx == true_start
                    }
                }
            &&& exists|places: Seq<int>|
                {
                    &&& #[trigger] are_the_places(places, count as int, bad)
                    &&& selected == count - places.len()
                    &&& if write_false {
                        stands_at(false_selection, false_start, places, tested, new_false, new_false_idx)
                    } else {
                        new_false == false_selection && new_false_idx == false_start
                    }
                }
        }),
{
    let all = candidates(strategy, true_selection, false_selection, true_start, false_start, count);
    let tested = |k: int|
        match strategy {
            SelectStrategy::ALL => k as u32,
            SelectStrategy::True => true_selection[true_start + k],
            SelectStrategy::False => false_selection[false_start + k],
        };
    assert(all.len() == count);
    assert forall|k: int| 0 <= k < count implies #[trigger] all[k] == tested(k) by {}
    let fail = |i: u32| !pass(i);
    let good = lemma_places_of(all, pass, tested);
    let bad = lemma_places_of(all, fail, tested);
    lemma_filter_parts(all, pass, fail);
    assert(are_the_places(good, count as int, |k: int| pass(tested(k))));
    let failing = |k: int| fail(tested(k));
    let other = |k: int| !pass(tested(k));
    assert(are_the_places(bad, count as int, failing));
    assert(are_the_places(bad, count as int, other)) by {
        assert forall|k: int| 0 <= k < count && #[trigger] other(k) implies bad.contains(k) by {
            assert(failing(k));
        }
        assert forall|j: int| 0 <= j < bad.len() implies 0 <= #[trigger] bad[j] < count && other(bad[j]) by {
            assert(failing(bad[j]));
        }
    }
    if write_true {
        assert(stands_at(true_selection, true_start, good, tested, new_true, new_true_idx));
    }
    if write_false {
        assert(stands_at(false_selection, false_start, bad, tested, new_false, new_false_idx));
    }
}

proof fn lemma_places_of(all: Seq<u32>, pass: spec_fn(u32) -> bool, tested: spec_fn(int) -> u32) -> (places: Seq<int>)
    requires
        forall|k: int| 0 <= k < all.len() ==> #[trigger] all[k] == tested(k),
    ensures
        are_the_places(places, all.len() as int, |k: int| pass(tested(k))),
        all.filter(pass).len() == places.len(),
        forall|j: int| 0 <= j < places.len() ==> #[trigger] all.filter(pass)[j] == tested(places[j]),
{
    let test = |k: int| pass(all[k]);
    let places = numbers_where(all.len(), test);
    numbers_are_the_places(all.len(), test);
    lemma_filter_places(all, pass, all.len());
    assert(all.take(all.len() as int) =~= all);
    let other = |k: int| pass(tested(k));
    assert(are_the_places(places, all.len() as int, other)) by {
        assert forall|j: int| 0 <= j < places.len() implies 0 <= #[trigger] places[j] < all.len() && other(places[j]) by {
            assert(test(places[j]));
            assert(all[places[j]] == tested(places[j]));
        }
        assert forall|k: int| 0 <= k < all.len() && #[trigger] other(k) implies places.contains(k) by {
            assert(all[k] == tested(k));
            assert(test(k));
        }
    }
    places
}

/// A selection holds the tested rows of the given places from `start` on, and what it held
/// elsewhere; `end` is behind them.
pub open spec fn stands_at(
    before: Seq<u32>,
    start: int,
    places: Seq<int>,
    tested: spec_fn(int) -> u32,
    after: Seq<u32>,
    end: int,
) -> bool {
    &&& end == start + places.len()
    &&& end <= after.len()
    &&& after.len() == before.len()
    &&& forall|j: int| 0 <= j < places.len() ==> after[start + j] == tested(#[trigger] places[j])
    &&& forall|j: int| 0 <= j < after.len() && !(start <= j < end) ==> #[trigger] after[j] == before[j]
}

/// Values of a fixed width are ordered by what they are, and so are booleans, strings and arrays.
pub proof fn fixed_width_values_are_ordered(
    a: (u8, u8),
    b: (u16, u16),
    c: (u32, u32),
    d: (u64, u64),
    e: (i8, i8),
    f: (i16, i16),
    g: (i32, i32),
    h: (i64, i64),
    i: (i128, i128),
)
    ensures
        ({
            let is = |o: Option<Order>, less: bool, greater: bool|
                o == Some(
                    if less {
                        Order::Less
                    } else if greater {
                        Order::Greater
                    } else {
                        Order::Equal
                    },
                );
            &&& is(a.0.order(a.1), a.0 < a.1, a.0 > a.1)
            &&& is(b.0.order(b.1), b.0 < b.1, b.0 > b.1)
            &&& is(c.0.order(c.1), c.0 < c.1, c.0 > c.1)
            &&& is(d.0.order(d.1), d.0 < d.1, d.0 > d.1)
            &&& is(e.0.order(e.1), e.0 < e.1, e.0 > e.1)
            &&& is(f.0.order(f.1), f.0 < f.1, f.0 > f.1)
            &&& is(g.0.order(g.1), g.0 < g.1, g.0 > g.1)
            &&& is(h.0.order(h.1), h.0 < h.1, h.0 > h.1)
            &&& is(i.0.order(i.1), i.0 < i.1, i.0 > i.1)
        }),
{
}

/// Wide integers, booleans and strings are ordered by what they are: wide integers by their high
/// halves and then by their low ones, false before true, strings byte by byte.
pub proof fn other_values_are_ordered(a: (I256, I256), b: (bool, bool), c: (Vec<u8>, Vec<u8>))
    ensures
        a.0.order(a.1) == Some(Order::Less) <==> a.0.high < a.1.high || (a.0.high == a.1.high && a.0.low < a.1.low),
        a.0.order(a.1) == Some(Order::Greater) <==> a.0.high > a.1.high || (a.0.high == a.1.high && a.0.low > a.1.low),
        a.0.order(a.1) == Some(Order::Equal) <==> a.0.high == a.1.high && a.0.low == a.1.low,
        b.0.order(b.1) == Some(Order::Less) <==> !b.0 && b.1,
        b.0.order(b.1) == Some(Order::Greater) <==> b.0 && !b.1,
        b.0.order(b.1) == Some(Order::Equal) <==> b.0 == b.1,
        c.0.order(c.1) == Some(Order::Less) <==> !bytes_at_most(c.1@, c.0@),
        c.0.order(c.1) == Some(Order::Greater) <==> !bytes_at_most(c.0@, c.1@),
{
    lemma_bytes_both_ways(c.0@, c.1@);
}

/// A row of two buffers passes where it is valid and its two values stand in the relation.
pub proof fn a_valid_row_passes_by_its_order<T: Comparable>(
    op: SelectOp,
    left: Seq<T>,
    right: Seq<T>,
    validity: Option<Seq<bool>>,
    i: u32,
)
    ensures
        ({
            let valid = validity matches Some(v) ==> v[i as int];
            let order = left[i as int].order(right[i as int]);
            &&& !valid ==> !row_passes(op, left, right, validity, i)
            &&& valid && order == Some(Order::Less) ==> (row_passes(op, left, right, validity, i) <==> op is Lt || op is Lte
                || op is NotEqual)
            &&& valid && order == Some(Order::Equal) ==> (row_passes(op, left, right, validity, i) <==> op is Equal
                || op is Lte || op is Gte)
            &&& valid && order == Some(Order::Greater) ==> (row_passes(op, left, right, validity, i) <==> op is Gt
                || op is Gte || op is NotEqual)
            &&& valid && order is None ==> (row_passes(op, left, right, validity, i) <==> op is NotEqual)
        }),
{
}

/// Nothing is ever selected from columns of types without values, and only from those.
pub proof fn types_without_values_select_nothing(t: TypeView)
    ensures
        has_no_values(t) <==> t == TypeView::Null || t == TypeView::EmptyArray || t == TypeView::EmptyMap,
{
}

}
