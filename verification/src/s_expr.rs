//! Relational expressions.

use vstd::prelude::*;

use crate::types::type_views;
use crate::types::DataType;
use crate::types::TypeView;

verus! {

/// The kind of an operator.
#[derive(Clone, Copy, Debug, PartialEq, Eq, Structural)]
pub enum RelOp {
    Join,
    UnionAll,
    MaterializedCte,
    ProjectSet,
    AsyncFunction,
    Udf,
    EvalScalar,
    Filter,
    RecursiveCteScan,
    Exchange,
    AddRowNumber,
    Scan,
    CteScan,
    DummyTableScan,
    ConstantTableScan,
    ExpressionScan,
    CacheScan,
    Sort,
    Limit,
    Aggregate,
    Window,
    MergeInto,
    Pattern,
}

#[derive(Clone, Copy, Debug, PartialEq, Eq, Structural)]
pub enum RuleID {
    UseVectorIndex,
    Other(u32),
}

/// A call of a function; its arguments are kept elsewhere, by their numbers.
#[derive(Debug)]
pub struct FunctionCall {
    pub func_name: String,
    pub arguments: Vec<u64>,
}

pub struct CallView {
    pub func_name: Seq<char>,
    pub arguments: Seq<u64>,
}

impl View for FunctionCall {
    type V = CallView;

    open spec fn view(&self) -> CallView {
        CallView { func_name: self.func_name@, arguments: self.arguments@ }
    }
}

impl Clone for FunctionCall {
    fn clone(&self) -> (r: Self)
        ensures
            r@ == self@,
    {
        let arguments = self.arguments.clone();
        assert(arguments@ =~= self.arguments@);
        FunctionCall { func_name: self.func_name.clone(), arguments }
    }
}

#[derive(Debug)]
pub enum ScalarExpr {
    FunctionCall(FunctionCall),
    /// Any other expression, by its number.
    Other(u64),
}

pub enum ScalarExprView {
    FunctionCall(CallView),
    Other(u64),
}

impl View for ScalarExpr {
    type V = ScalarExprView;

    open spec fn view(&self) -> ScalarExprView {
        match *self {
            ScalarExpr::FunctionCall(f) => ScalarExprView::FunctionCall(f@),
            ScalarExpr::Other(n) => ScalarExprView::Other(n),
        }
    }
}

impl Clone for ScalarExpr {
    fn clone(&self) -> (r: Self)
        ensures
            r@ == self@,
    {
        match self {
            ScalarExpr::FunctionCall(f) => ScalarExpr::FunctionCall(f.clone()),
            ScalarExpr::Other(n) => ScalarExpr::Other(*n),
        }
    }
}

#[derive(Debug)]
pub struct ScalarItem {
    pub index: usize,
    pub scalar: ScalarExpr,
}

pub struct ScalarItemView {
    pub index: usize,
    pub scalar: ScalarExprView,
}

pub open spec fn scalar_item_view(i: ScalarItem) -> ScalarItemView {
    ScalarItemView { index: i.index, scalar: i.scalar@ }
}

pub open spec fn scalar_items_view(v: Seq<ScalarItem>) -> Seq<ScalarItemView> {
    v.map_values(|i: ScalarItem| scalar_item_view(i))
}

#[derive(Clone, Copy, Debug, PartialEq, Eq, Structural)]
pub struct SortItem {
    pub index: usize,
    pub asc: bool,
    pub nulls_first: bool,
}

#[derive(Debug)]
pub struct Sort {
    pub items: Vec<SortItem>,
    pub limit: Option<usize>,
}

#[derive(Debug)]
pub struct Scan {
    pub table_index: usize,
    pub order_by: Option<Vec<SortItem>>,
    pub limit: Option<usize>,
    /// What the rows are compared with.
    pub similarity: Option<FunctionCall>,
}

#[verifier::ext_equal]
pub struct ScanView {
    pub table_index: usize,
    pub order_by: Option<Seq<SortItem>>,
    pub limit: Option<usize>,
    pub similarity: Option<CallView>,
}

pub open spec fn scan_view(s: Scan) -> ScanView {
    ScanView {
        table_index: s.table_index,
        order_by: match s.order_by {
            Some(items) => Some(items@),
            None => None,
        },
        limit: s.limit,
        similarity: match s.similarity {
            Some(f) => Some(f@),
            None => None,
        },
    }
}

#[derive(Debug)]
pub struct RecursiveCteScan {
    pub table_name: String,
    pub fields: Vec<DataType>,
}

/// An operator, with what is looked at of it.
#[derive(Debug)]
pub enum RelOperator {
    Sort(Sort),
    EvalScalar(Vec<ScalarItem>),
    Scan(Scan),
    RecursiveCteScan(RecursiveCteScan),
    /// Any operator of a kind.
    Pattern(RelOp),
    /// An operator of another kind.
    Other(RelOp),
}

pub enum OperatorView {
    Sort(Seq<SortItem>, Option<usize>),
    EvalScalar(Seq<ScalarItemView>),
    Scan(ScanView),
    RecursiveCteScan(Seq<char>, Seq<TypeView>),
    Pattern(RelOp),
    Other(RelOp),
}

impl View for RelOperator {
    type V = OperatorView;

    open spec fn view(&self) -> OperatorView {
        match *self {
            RelOperator::Sort(s) => OperatorView::Sort(s.items@, s.limit),
            RelOperator::EvalScalar(items) => OperatorView::EvalScalar(scalar_items_view(items@)),
            RelOperator::Scan(s) => OperatorView::Scan(scan_view(s)),
            RelOperator::RecursiveCteScan(c) => OperatorView::RecursiveCteScan(c.table_name@, type_views(c.fields@)),
            RelOperator::Pattern(op) => OperatorView::Pattern(op),
            RelOperator::Other(op) => OperatorView::Other(op),
        }
    }
}

/// The kind of an operator.
pub open spec fn rel_op_of(v: OperatorView) -> RelOp {
    match v {
        OperatorView::Sort(_, _) => RelOp::Sort,
        OperatorView::EvalScalar(_) => RelOp::EvalScalar,
        OperatorView::Scan(_) => RelOp::Scan,
        OperatorView::RecursiveCteScan(_, _) => RelOp::RecursiveCteScan,
        OperatorView::Pattern(_) => RelOp::Pattern,
        OperatorView::Other(op) => op,
    }
}

impl RelOperator {
    pub fn rel_op(&self) -> (r: RelOp)
        ensures
            r == rel_op_of(self@),
    {
        match self {
            RelOperator::Sort(_) => RelOp::Sort,
            RelOperator::EvalScalar(_) => RelOp::EvalScalar,
            RelOperator::Scan(_) => RelOp::Scan,
            RelOperator::RecursiveCteScan(_) => RelOp::RecursiveCteScan,
            RelOperator::Pattern(_) => RelOp::Pattern,
            RelOperator::Other(op) => *op,
        }
    }
}

/// An operator on the results of others.
#[derive(Debug)]
pub struct SExpr {
    pub plan: RelOperator,
    pub children: Vec<SExpr>,
    pub applied_rules: Vec<RuleID>,
}

pub struct SExprView {
    pub plan: OperatorView,
    pub children: Seq<SExprView>,
    pub applied_rules: Seq<RuleID>,
}

pub open spec fn s_expr_view(e: SExpr) -> SExprView
    decreases e,
{
    SExprView { plan: e.plan@, children: s_expr_views(e.children@), applied_rules: e.applied_rules@ }
}

pub open spec fn s_expr_views(s: Seq<SExpr>) -> Seq<SExprView>
    decreases s,
{
    Seq::new(
        s.len(),
        |i: int|
            if 0 <= i < s.len() {
                s_expr_view(s[i])
            } else {
                arbitrary()
            },
    )
}

impl View for SExpr {
    type V = SExprView;

    open spec fn view(&self) -> SExprView {
        s_expr_view(*self)
    }
}

impl SExpr {
    pub fn create_leaf(plan: RelOperator) -> (r: SExpr)
        ensures
            r@ == (SExprView { plan: plan@, children: Seq::empty(), applied_rules: Seq::empty() }),
    {
        let r = SExpr { plan, children: Vec::new(), applied_rules: Vec::new() };
        assert(s_expr_views(r.children@) =~= Seq::<SExprView>::empty());
        r
    }

    pub fn create_unary(plan: RelOperator, child: SExpr) -> (r: SExpr)
        ensures
            r@ == (SExprView { plan: plan@, children: seq![child@], applied_rules: Seq::empty() }),
    {
        let mut children: Vec<SExpr> = Vec::new();
        children.push(child);
        let r = SExpr { plan, children, applied_rules: Vec::new() };
        assert(s_expr_views(r.children@) =~= seq![child@]);
        r
    }
}

/// An operator is named by what it is.
pub proof fn operators_are_named_by_what_they_are(v: OperatorView)
    ensures
        v is Sort <==> rel_op_of(v) is Sort && !(v is Other),
        v is EvalScalar <==> rel_op_of(v) is EvalScalar && !(v is Other),
        v is Scan <==> rel_op_of(v) is Scan && !(v is Other),
        v is RecursiveCteScan <==> rel_op_of(v) is RecursiveCteScan && !(v is Other),
        v is Pattern <==> rel_op_of(v) is Pattern && !(v is Other),
        v matches OperatorView::Other(op) ==> rel_op_of(v) == op,
{
}

}
