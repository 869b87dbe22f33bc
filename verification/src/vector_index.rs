//! Reading the nearest rows by means of a vector index.

use vstd::prelude::*;

use crate::s_expr::s_expr_view;
use crate::s_expr::s_expr_views;
use crate::s_expr::scalar_item_view;
use crate::s_expr::scalar_items_view;
use crate::s_expr::CallView;
use crate::s_expr::FunctionCall;
use crate::s_expr::OperatorView;
use crate::s_expr::RelOp;
use crate::s_expr::RelOperator;
use crate::s_expr::RuleID;
use crate::s_expr::SExpr;
use crate::s_expr::SExprView;
use crate::s_expr::ScalarExpr;
use crate::s_expr::ScalarExprView;
use crate::s_expr::ScalarItemView;
use crate::s_expr::Scan;
use crate::s_expr::ScanView;
use crate::s_expr::SortItem;
use crate::text::same_text;

verus! {

/// An operator of a kind, on the results of others.
pub open spec fn pattern(op: RelOp, children: Seq<SExprView>) -> SExprView {
    SExprView { plan: OperatorView::Pattern(op), children, applied_rules: Seq::empty() }
}

/// Rows sorted by what is computed of a table.
pub open spec fn sorted_scan_pattern() -> SExprView {
    pattern(RelOp::Sort, seq![pattern(RelOp::EvalScalar, seq![pattern(RelOp::Scan, Seq::empty())])])
}

#[derive(Debug)]
pub struct RuleUseVectorIndex {
    id: RuleID,
    patterns: Vec<SExpr>,
}

/// Rows sorted by what is computed of a table.
pub open spec fn is_sorted_scan(e: SExprView) -> bool {
    &&& e.plan is Sort
    &&& e.children.len() == 1
    &&& e.children[0].plan is EvalScalar
    &&& e.children[0].children.len() == 1
    &&& e.children[0].children[0].plan is Scan
}

/// The first rows are asked for, by one thing in rising order.
pub open spec fn asks_for_nearest(e: SExprView) -> bool {
    e.plan matches OperatorView::Sort(items, limit) && limit is Some && items.len() == 1 && items[0].asc
}

/// The first thing of an index.
pub open spec fn first_with_index(items: Seq<ScalarItemView>, index: usize, n: nat) -> Option<int>
    decreases n,
{
    if n == 0 {
        None
    } else {
        match first_with_index(items, index, (n - 1) as nat) {
            Some(i) => Some(i),
            None => if items[n - 1].index == index {
                Some(n - 1)
            } else {
                None
            },
        }
    }
}

/// What is sorted by is computed.
pub open spec fn sort_item_computed(e: SExprView) -> bool {
    e.plan matches OperatorView::Sort(sort_items, _) && (e.children[0].plan matches OperatorView::EvalScalar(items)
        && first_with_index(items, sort_items[0].index, items.len()) is Some)
}

/// The distance that rows are sorted by, where it is one that an index answers.
pub open spec fn distance(e: SExprView) -> Option<CallView> {
    match (e.plan, e.children[0].plan) {
        (OperatorView::Sort(sort_items, _), OperatorView::EvalScalar(items)) => match first_with_index(
            items,
            sort_items[0].index,
            items.len(),
        ) {
            Some(i) => match items[i].scalar {
                ScalarExprView::FunctionCall(f) => if f.func_name == "cosine_distance"@ {
                    Some(f)
                } else {
                    None
                },
                ScalarExprView::Other(_) => None,
            },
            None => None,
        },
        _ => None,
    }
}

/// The rows of a table are read in the order of a distance, and only the first of them.
pub open spec fn pushed_down(e: SExprView, f: CallView) -> SExprView {
    match (e.plan, e.children[0].children[0].plan) {
        (OperatorView::Sort(items, limit), OperatorView::Scan(scan)) => {
            let eval = e.children[0];
            let new_scan = SExprView {
                plan: OperatorView::Scan(
                    ScanView { order_by: Some(items), limit, similarity: Some(f), ..scan },
                ),
                ..eval.children[0]
            };
            SExprView {
                children: seq![SExprView { children: seq![new_scan], ..eval }],
                applied_rules: e.applied_rules.push(RuleID::UseVectorIndex),
                ..e
            }
        },
        _ => e,
    }
}

/// What the rule makes of rows sorted by what is computed of a table.
pub open spec fn applied(e: SExprView) -> SExprView {
    if !asks_for_nearest(e) {
        e
    } else {
        match distance(e) {
            Some(f) => pushed_down(e, f),
            None => e,
        }
    }
}

impl RuleUseVectorIndex {
    pub closed spec fn rule_id(&self) -> RuleID {
        self.id
    }

    pub closed spec fn rule_patterns(&self) -> Seq<SExpr> {
        self.patterns@
    }

    pub fn new() -> (r: Self)
        ensures
            r.rule_id() == RuleID::UseVectorIndex,
            r.rule_patterns().len() == 1,
            r.rule_patterns()[0]@ == sorted_scan_pattern(),
    {
        //   Sort
        //     \
        //     EvalScalar
        //       \
        //        Scan
        let scan = SExpr::create_leaf(RelOperator::Pattern(RelOp::Scan));
        let eval = SExpr::create_unary(RelOperator::Pattern(RelOp::EvalScalar), scan);
        let sort = SExpr::create_unary(RelOperator::Pattern(RelOp::Sort), eval);
        let mut patterns: Vec<SExpr> = Vec::new();
        patterns.push(sort);
        RuleUseVectorIndex { id: RuleID::UseVectorIndex, patterns }
    }

    pub fn id(&self) -> (r: RuleID)
        ensures
            r == self.rule_id(),
    {
        self.id
    }

    pub fn patterns(&self) -> (r: &Vec<SExpr>)
        ensures
            r@ == self.rule_patterns(),
    {
        &self.patterns
    }

    /// Lets an index find the nearest rows, where rows are sorted by their distance and the first
    /// of them are asked for.
    pub fn apply(&self, s_expr: SExpr) -> (r: SExpr)
        requires
            self.rule_id() == RuleID::UseVectorIndex,
            is_sorted_scan(s_expr@),
            asks_for_nearest(s_expr@) ==> sort_item_computed(s_expr@),
        ensures
            r@ == applied(s_expr@),
    {
        let ghost view = s_expr@;
        proof {
            lemma_sorted_scan(s_expr);
        }
        let mut s_expr = s_expr;
        let (items, limit) = match &s_expr.plan {
            RelOperator::Sort(sort) => {
                if sort.limit.is_none() || sort.items.len() != 1 || !sort.items[0].asc {
                    return s_expr;
                }
                let mut items: Vec<SortItem> = Vec::new();
                items.push(sort.items[0]);
                assert(items@ =~= sort.items@);
                (items, sort.limit)
            },
            _ => return s_expr,
        };
        let found = match &s_expr.children[0].plan {
            RelOperator::EvalScalar(scalars) => {
                let ghost views = scalar_items_view(scalars@);
                let mut i: usize = 0;
                let mut found: Option<FunctionCall> = None;
                let mut searching = true;
                while searching && i < scalars.len()
                    invariant
                        i <= scalars@.len(),
                        items@.len() == 1,
                        views == scalar_items_view(scalars@),
                        searching ==> first_with_index(views, items@[0].index, i as nat) is None,
                        searching ==> found is None,
                        !searching ==> i < scalars@.len() && first_with_index(views, items@[0].index, (i + 1) as nat)
                            == Some(i as int),
                        !searching ==> match views[i as int].scalar {
                            ScalarExprView::FunctionCall(f) => if f.func_name == "cosine_distance"@ {
                                found matches Some(call) && call@ == f
                            } else {
                                found is None
                            },
                            ScalarExprView::Other(_) => found is None,
                        },
                    decreases scalars.len() - i, (if searching {
                        1int
                    } else {
                        0
                    }),
                {
                    assert(views[i as int] == scalar_item_view(scalars@[i as int]));
                    if scalars[i].index == items[0].index {
                        searching = false;
                        match &scalars[i].scalar {
                            ScalarExpr::FunctionCall(func) => if same_text(
                                func.func_name.as_str(),
                                "cosine_distance",
                            ) {
                                found = Some(func.clone());
                            },
                            ScalarExpr::Other(_) => {},
                        }
                    } else {
                        i += 1;
                    }
                }
                proof {
                    if !searching {
                        lemma_first_stays(views, items@[0].index, (i + 1) as nat, views.len());
                    }
                }
                found
            },
            _ => None,
        };
        assert(match found {
            Some(call) => distance(view) == Some(call@),
            None => distance(view) is None,
        });
        let func = match found {
            Some(func) => func,
            None => return s_expr,
        };
        let mut eval = s_expr.children.remove(0);
        let mut scan = eval.children.remove(0);
        let table_index: usize = match &scan.plan {
            RelOperator::Scan(old_scan) => old_scan.table_index,
            _ => 0,
        };
        let ghost scan_before = scan@;
        let ghost eval_before = view.children[0];
        assert(scan_before == view.children[0].children[0]);
        scan.plan = RelOperator::Scan(
            Scan { table_index, order_by: Some(items), limit, similarity: Some(func) },
        );
        proof {
            assert(s_expr_views(scan.children@) == scan_before.children);
        }
        let ghost new_scan = scan@;
        eval.children.push(scan);
        assert(s_expr_views(eval.children@) =~= seq![new_scan]);
        assert(eval@ == (SExprView { children: seq![new_scan], ..eval_before }));
        let ghost new_eval = eval@;
        s_expr.children.push(eval);
        assert(s_expr_views(s_expr.children@) =~= seq![new_eval]);
        s_expr.applied_rules.push(self.id);
        s_expr
    }
}

proof fn lemma_sorted_scan(e: SExpr)
    requires
        is_sorted_scan(e@),
    ensures
        e.plan is Sort,
        e.children@.len() == 1,
        e.children@[0].plan is EvalScalar,
        e.children@[0].children@.len() == 1,
        e.children@[0].children@[0].plan is Scan,
        e@.children[0] == e.children@[0]@,
        e@.children[0].children[0] == e.children@[0].children@[0]@,
{
    reveal_with_fuel(s_expr_view, 3);
    assert(s_expr_views(e.children@).len() == e.children@.len());
    assert(s_expr_views(e.children@)[0] == s_expr_view(e.children@[0]));
    let eval = e.children@[0];
    assert(s_expr_views(eval.children@).len() == eval.children@.len());
    assert(s_expr_views(eval.children@)[0] == s_expr_view(eval.children@[0]));
}

proof fn lemma_first_stays(items: Seq<ScalarItemView>, index: usize, n: nat, m: nat)
    requires
        n <= m,
        first_with_index(items, index, n) is Some,
    ensures
        first_with_index(items, index, m) == first_with_index(items, index, n),
    decreases m,
{
    if n < m {
        lemma_first_stays(items, index, n, (m - 1) as nat);
    }
}

/// The item that computes a column is the first one with its index.
pub proof fn the_first_item_of_an_index_counts(items: Seq<ScalarItemView>, index: usize, n: nat)
    requires
        n <= items.len(),
    ensures
        match first_with_index(items, index, n) {
            Some(i) => 0 <= i < n && items[i].index == index && forall|j: int|
                0 <= j < i ==> (#[trigger] items[j]).index != index,
            None => forall|j: int| 0 <= j < n ==> (#[trigger] items[j]).index != index,
        },
    decreases n,
{
    if n > 0 {
        the_first_item_of_an_index_counts(items, index, (n - 1) as nat);
    }
}

/// The rule tells the scan what is sought where the rows nearest to something are asked for: a
/// limited number of rows in ascending order of one column, which is a cosine distance. The scan
/// then knows the order, the limit and the distance. Nothing else of the plan changes, and any
/// other plan stays as it is.
pub proof fn only_nearest_rows_are_pushed_down(e: SExprView)
    requires
        is_sorted_scan(e),
        asks_for_nearest(e) ==> sort_item_computed(e),
    ensures
        e.plan matches OperatorView::Sort(sort, limit) && (e.children[0].plan matches OperatorView::EvalScalar(items)
            && (e.children[0].children[0].plan matches OperatorView::Scan(scan) && {
            let nearest = limit is Some && sort.len() == 1 && sort[0].asc;
            let by_distance = exists|i: int|
                {
                    &&& 0 <= i < items.len()
                    &&& (#[trigger] items[i]).index == sort[0].index
                    &&& forall|j: int| 0 <= j < i ==> (#[trigger] items[j]).index != sort[0].index
                    &&& items[i].scalar matches ScalarExprView::FunctionCall(f) && f.func_name == "cosine_distance"@
                };
            &&& !(nearest && by_distance) ==> applied(e) == e
            &&& nearest && by_distance ==> {
                let r = applied(e);
                &&& r.plan == e.plan
                &&& r.applied_rules == e.applied_rules.push(RuleID::UseVectorIndex)
                &&& r.children.len() == 1
                &&& r.children[0].plan == e.children[0].plan
                &&& r.children[0].children.len() == 1
                &&& r.children[0].children[0].plan matches OperatorView::Scan(now) && {
                    &&& now.table_index == scan.table_index
                    &&& now.order_by == Some(sort)
                    &&& now.limit == limit
                    &&& now.similarity matches Some(f) && f.func_name == "cosine_distance"@
                }
            }
        })),
{
    if let (OperatorView::Sort(sort, limit), OperatorView::EvalScalar(items)) = (e.plan, e.children[0].plan) {
        the_first_item_of_an_index_counts(items, sort[0].index, items.len());
    }
}

/// The plans that the rule is tried on: a sort of computed values of a scan.
pub proof fn what_the_rule_is_tried_on()
    ensures
        ({
            let p = sorted_scan_pattern();
            &&& p.plan == OperatorView::Pattern(RelOp::Sort)
            &&& p.children.len() == 1
            &&& p.children[0].plan == OperatorView::Pattern(RelOp::EvalScalar)
            &&& p.children[0].children.len() == 1
            &&& p.children[0].children[0].plan == OperatorView::Pattern(RelOp::Scan)
            &&& p.children[0].children[0].children.len() == 0
        }),
{
}

}
