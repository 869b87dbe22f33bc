//! Fragments of a query plan, and which executor runs which of them.

use vstd::prelude::*;

use crate::error::ErrorCode;
use crate::text::is_sorting;
use crate::text::lemma_sorting_exists;
use crate::text::same_text;
use crate::text::sort_texts;
use crate::text::sorted_texts;
use crate::text::texts;

verus! {

/// Type of plan fragment
#[derive(Clone, Copy, Debug, PartialEq, Eq, Structural)]
pub enum FragmentType {
    /// Root fragment of a query plan
    Root,
    /// Intermediate fragment of a query plan,
    /// doesn't contain any `TableScan` operator.
    Intermediate,
    /// Leaf fragment of a query plan, which contains
    /// a `TableScan` operator.
    Source,
    /// Leaf fragment of a delete plan, which contains
    /// a `DeletePartial` operator.
    DeleteLeaf,
    /// Intermediate fragment of a replace into plan, which contains a `ReplaceInto` operator.
    ReplaceInto,
}

/// How a fragment hands its data on. The number names the exchange.
#[derive(Clone, Copy, Debug, PartialEq, Eq, Structural)]
pub enum DataExchange {
    Merge(u64),
    Broadcast(u64),
    ShuffleDataExchange(u64),
}

/// What is read: a table, or files of a stage, by its number, and the parts of it.
#[derive(Debug)]
pub struct DataSourcePlan {
    pub table: u64,
    pub parts: Vec<u64>,
}

pub struct SourceView {
    pub table: u64,
    pub parts: Seq<u64>,
}

impl View for DataSourcePlan {
    type V = SourceView;

    open spec fn view(&self) -> SourceView {
        SourceView { table: self.table, parts: self.parts@ }
    }
}

#[derive(Debug)]
pub enum CopyIntoTableSource {
    Query(Box<PhysicalPlan>),
    Stage(DataSourcePlan),
}

/// A segment and where it is kept.
pub type SegmentLocation = (usize, u64);

/// An operator of a query plan with its inputs. Operators that are treated alike here are
/// told apart by their number.
#[derive(Debug)]
pub enum PhysicalPlan {
    TableScan { plan_id: u32, source: DataSourcePlan },
    CopyIntoTable { plan_id: u32, from: CopyIntoTableSource },
    ExchangeSink { plan_id: u32, input: Box<PhysicalPlan> },
    DeletePartial { plan_id: u32, parts: Vec<u64> },
    ReplaceInto { plan_id: u32, input: Box<PhysicalPlan>, need_insert: bool, segments: Vec<SegmentLocation> },
    Deduplicate { plan_id: u32, input: Box<PhysicalPlan>, need_insert: bool },
    Operator { plan_id: u32, inputs: Vec<PhysicalPlan> },
}

pub enum PlanView {
    TableScan { plan_id: u32, source: SourceView },
    CopyFromQuery { plan_id: u32, input: Box<PlanView> },
    CopyFromStage { plan_id: u32, source: SourceView },
    ExchangeSink { plan_id: u32, input: Box<PlanView> },
    DeletePartial { plan_id: u32, parts: Seq<u64> },
    ReplaceInto { plan_id: u32, input: Box<PlanView>, need_insert: bool, segments: Seq<SegmentLocation> },
    Deduplicate { plan_id: u32, input: Box<PlanView>, need_insert: bool },
    Operator { plan_id: u32, inputs: Seq<PlanView> },
}

impl View for PhysicalPlan {
    type V = PlanView;

    open spec fn view(&self) -> PlanView {
        plan_view(*self)
    }
}

pub open spec fn plan_view(p: PhysicalPlan) -> PlanView
    decreases p,
{
    match p {
        PhysicalPlan::TableScan { plan_id, source } => PlanView::TableScan { plan_id, source: source@ },
        PhysicalPlan::CopyIntoTable { plan_id, from } => match from {
            CopyIntoTableSource::Query(input) => PlanView::CopyFromQuery {
                plan_id,
                input: Box::new(plan_view(*input)),
            },
            CopyIntoTableSource::Stage(stage) => PlanView::CopyFromStage { plan_id, source: stage@ },
        },
        PhysicalPlan::ExchangeSink { plan_id, input } => PlanView::ExchangeSink {
            plan_id,
            input: Box::new(plan_view(*input)),
        },
        PhysicalPlan::DeletePartial { plan_id, parts } => PlanView::DeletePartial { plan_id, parts: parts@ },
        PhysicalPlan::ReplaceInto { plan_id, input, need_insert, segments } => PlanView::ReplaceInto {
            plan_id,
            input: Box::new(plan_view(*input)),
            need_insert,
            segments: segments@,
        },
        PhysicalPlan::Deduplicate { plan_id, input, need_insert } => PlanView::Deduplicate {
            plan_id,
            input: Box::new(plan_view(*input)),
            need_insert,
        },
        PhysicalPlan::Operator { plan_id, inputs } => PlanView::Operator { plan_id, inputs: plan_views(inputs@) },
    }
}

pub open spec fn plan_views(ps: Seq<PhysicalPlan>) -> Seq<PlanView>
    decreases ps,
{
    Seq::new(
        ps.len(),
        |i: int|
            if 0 <= i < ps.len() {
                plan_view(ps[i])
            } else {
                arbitrary()
            },
    )
}

/// What is put in place of what in a plan.
#[derive(Debug)]
pub enum PlanReplacer {
    /// Another source in table scans and in copies from a stage.
    ReplaceReadSource { source: DataSourcePlan },
    /// Other parts to delete from.
    ReplaceDeletePartial { partitions: Vec<u64> },
    /// Other segments to replace into, and whether rows are inserted.
    ReplaceReplaceInto { segments: Vec<SegmentLocation>, need_insert: bool },
}

pub enum ReplacerView {
    ReplaceReadSource { source: SourceView },
    ReplaceDeletePartial { partitions: Seq<u64> },
    ReplaceReplaceInto { segments: Seq<SegmentLocation>, need_insert: bool },
}

impl View for PlanReplacer {
    type V = ReplacerView;

    open spec fn view(&self) -> ReplacerView {
        match self {
            PlanReplacer::ReplaceReadSource { source } => ReplacerView::ReplaceReadSource { source: source@ },
            PlanReplacer::ReplaceDeletePartial { partitions } => ReplacerView::ReplaceDeletePartial {
                partitions: partitions@,
            },
            PlanReplacer::ReplaceReplaceInto { segments, need_insert } => ReplacerView::ReplaceReplaceInto {
                segments: segments@,
                need_insert: *need_insert,
            },
        }
    }
}

/// The plan with the replacements made throughout.
pub open spec fn replaced(p: PlanView, r: ReplacerView) -> PlanView
    decreases p,
{
    match p {
        PlanView::TableScan { plan_id, source } => match r {
            ReplacerView::ReplaceReadSource { source } => PlanView::TableScan { plan_id, source },
            _ => p,
        },
        PlanView::CopyFromQuery { plan_id, input } => PlanView::CopyFromQuery {
            plan_id,
            input: Box::new(replaced(*input, r)),
        },
        PlanView::CopyFromStage { plan_id, source } => match r {
            ReplacerView::ReplaceReadSource { source } => PlanView::CopyFromStage { plan_id, source },
            _ => p,
        },
        PlanView::ExchangeSink { plan_id, input } => PlanView::ExchangeSink {
            plan_id,
            input: Box::new(replaced(*input, r)),
        },
        PlanView::DeletePartial { plan_id, parts } => match r {
            ReplacerView::ReplaceDeletePartial { partitions } => PlanView::DeletePartial {
                plan_id,
                parts: partitions,
            },
            _ => p,
        },
        PlanView::ReplaceInto { plan_id, input, need_insert, segments } => match r {
            ReplacerView::ReplaceReplaceInto { segments, need_insert } => PlanView::ReplaceInto {
                plan_id,
                input: Box::new(replaced(*input, r)),
                need_insert,
                segments,
            },
            _ => PlanView::ReplaceInto { plan_id, input: Box::new(replaced(*input, r)), need_insert, segments },
        },
        PlanView::Deduplicate { plan_id, input, need_insert } => match r {
            ReplacerView::ReplaceReplaceInto { segments, need_insert } => PlanView::Deduplicate {
                plan_id,
                input: Box::new(replaced(*input, r)),
                need_insert,
            },
            _ => PlanView::Deduplicate { plan_id, input: Box::new(replaced(*input, r)), need_insert },
        },
        PlanView::Operator { plan_id, inputs } => PlanView::Operator { plan_id, inputs: all_replaced(inputs, r) },
    }
}

pub open spec fn all_replaced(ps: Seq<PlanView>, r: ReplacerView) -> Seq<PlanView>
    decreases ps,
{
    Seq::new(
        ps.len(),
        |i: int|
            if 0 <= i < ps.len() {
                replaced(ps[i], r)
            } else {
                arbitrary()
            },
    )
}

/// The sources that a plan reads.
pub open spec fn plan_sources(p: PlanView) -> Seq<SourceView>
    decreases p, 0nat,
{
    match p {
        PlanView::TableScan { plan_id, source } => seq![source],
        PlanView::CopyFromQuery { plan_id, input } => plan_sources(*input),
        PlanView::CopyFromStage { plan_id, source } => seq![source],
        PlanView::ExchangeSink { plan_id, input } => plan_sources(*input),
        PlanView::DeletePartial { plan_id, parts } => Seq::empty(),
        PlanView::ReplaceInto { plan_id, input, need_insert, segments } => plan_sources(*input),
        PlanView::Deduplicate { plan_id, input, need_insert } => plan_sources(*input),
        PlanView::Operator { plan_id, inputs } => all_sources(inputs, inputs.len()),
    }
}

pub open spec fn all_sources(ps: Seq<PlanView>, n: nat) -> Seq<SourceView>
    decreases ps, n,
{
    if n == 0 || n > ps.len() {
        Seq::empty()
    } else {
        all_sources(ps, (n - 1) as nat) + plan_sources(ps[n - 1])
    }
}

fn clone_parts(v: &Vec<u64>) -> (r: Vec<u64>)
    ensures
        r@ == v@,
{
    let r = v.clone();
    assert(r@ =~= v@);
    r
}

fn clone_segments(v: &Vec<SegmentLocation>) -> (r: Vec<SegmentLocation>)
    ensures
        r@ == v@,
{
    let mut r: Vec<SegmentLocation> = Vec::new();
    let mut i: usize = 0;
    while i < v.len()
        invariant
            i <= v.len(),
            r@ == v@.take(i as int),
        decreases v.len() - i,
    {
        r.push(v[i]);
        assert(v@.take(i + 1) =~= v@.take(i as int).push(v@[i as int]));
        i += 1;
    }
    assert(v@.take(i as int) =~= v@);
    r
}

impl DataSourcePlan {
    fn copied(&self) -> (r: DataSourcePlan)
        ensures
            r@ == self@,
    {
        DataSourcePlan { table: self.table, parts: clone_parts(&self.parts) }
    }
}

impl PlanReplacer {
    fn replace_all(&self, plans: &Vec<PhysicalPlan>) -> (r: Vec<PhysicalPlan>)
        ensures
            plan_views(r@) == all_replaced(plan_views(plans@), self@),
        decreases plans,
    {
        let mut r: Vec<PhysicalPlan> = Vec::new();
        let mut i: usize = 0;
        while i < plans.len()
            invariant
                i <= plans.len(),
                r@.len() == i,
                forall|j: int| 0 <= j < i ==> plan_view(#[trigger] r@[j]) == replaced(plan_view(plans@[j]), self@),
            decreases plans.len() - i,
        {
            assert(decreases_to!(plans => plans[i as int]));
            let p = self.replace(&plans[i]);
            r.push(p);
            i += 1;
        }
        assert(plan_views(r@) =~= all_replaced(plan_views(plans@), self@));
        r
    }

    /// The plan with the replacements made throughout.
    pub fn replace(&self, plan: &PhysicalPlan) -> (r: PhysicalPlan)
        ensures
            r@ == replaced(plan@, self@),
        decreases plan,
    {
        match plan {
            PhysicalPlan::TableScan { plan_id, source } => match self {
                PlanReplacer::ReplaceReadSource { source: other } => PhysicalPlan::TableScan {
                    plan_id: *plan_id,
                    source: other.copied(),
                },
                _ => PhysicalPlan::TableScan { plan_id: *plan_id, source: source.copied() },
            },
            PhysicalPlan::CopyIntoTable { plan_id, from } => match from {
                CopyIntoTableSource::Query(input) => PhysicalPlan::CopyIntoTable {
                    plan_id: *plan_id,
                    from: CopyIntoTableSource::Query(Box::new(self.replace(input))),
                },
                CopyIntoTableSource::Stage(stage) => PhysicalPlan::CopyIntoTable {
                    plan_id: *plan_id,
                    from: match self {
                        PlanReplacer::ReplaceReadSource { source: other } => CopyIntoTableSource::Stage(
                            other.copied(),
                        ),
                        _ => CopyIntoTableSource::Stage(stage.copied()),
                    },
                },
            },
            PhysicalPlan::ExchangeSink { plan_id, input } => PhysicalPlan::ExchangeSink {
                plan_id: *plan_id,
                input: Box::new(self.replace(input)),
            },
            PhysicalPlan::DeletePartial { plan_id, parts } => PhysicalPlan::DeletePartial {
                plan_id: *plan_id,
                parts: match self {
                    PlanReplacer::ReplaceDeletePartial { partitions } => clone_parts(partitions),
                    _ => clone_parts(parts),
                },
            },
            PhysicalPlan::ReplaceInto { plan_id, input, need_insert, segments } => {
                let input = self.replace(input);
                match self {
                    PlanReplacer::ReplaceReplaceInto { segments, need_insert } => PhysicalPlan::ReplaceInto {
                        plan_id: *plan_id,
                        input: Box::new(input),
                        need_insert: *need_insert,
                        segments: clone_segments(segments),
                    },
                    _ => PhysicalPlan::ReplaceInto {
                        plan_id: *plan_id,
                        input: Box::new(input),
                        need_insert: *need_insert,
                        segments: clone_segments(segments),
                    },
                }
            },
            PhysicalPlan::Deduplicate { plan_id, input, need_insert } => {
                let input = self.replace(input);
                match self {
                    PlanReplacer::ReplaceReplaceInto { segments: _, need_insert } => PhysicalPlan::Deduplicate {
                        plan_id: *plan_id,
                        input: Box::new(input),
                        need_insert: *need_insert,
                    },
                    _ => PhysicalPlan::Deduplicate {
                        plan_id: *plan_id,
                        input: Box::new(input),
                        need_insert: *need_insert,
                    },
                }
            },
            PhysicalPlan::Operator { plan_id, inputs } => PhysicalPlan::Operator {
                plan_id: *plan_id,
                inputs: self.replace_all(inputs),
            },
        }
    }
}

impl PhysicalPlan {
    fn copied_all(plans: &Vec<PhysicalPlan>) -> (r: Vec<PhysicalPlan>)
        ensures
            plan_views(r@) == plan_views(plans@),
        decreases plans,
    {
        let mut r: Vec<PhysicalPlan> = Vec::new();
        let mut i: usize = 0;
        while i < plans.len()
            invariant
                i <= plans.len(),
                r@.len() == i,
                forall|j: int| 0 <= j < i ==> plan_view(#[trigger] r@[j]) == plan_view(plans@[j]),
            decreases plans.len() - i,
        {
            assert(decreases_to!(plans => plans[i as int]));
            let p = plans[i].copied();
            r.push(p);
            i += 1;
        }
        assert(plan_views(r@) =~= plan_views(plans@));
        r
    }

    fn copied(&self) -> (r: PhysicalPlan)
        ensures
            r@ == self@,
        decreases self,
    {
        match self {
            PhysicalPlan::TableScan { plan_id, source } => PhysicalPlan::TableScan {
                plan_id: *plan_id,
                source: source.copied(),
            },
            PhysicalPlan::CopyIntoTable { plan_id, from } => PhysicalPlan::CopyIntoTable {
                plan_id: *plan_id,
                from: match from {
                    CopyIntoTableSource::Query(input) => CopyIntoTableSource::Query(Box::new(input.copied())),
                    CopyIntoTableSource::Stage(stage) => CopyIntoTableSource::Stage(stage.copied()),
                },
            },
            PhysicalPlan::ExchangeSink { plan_id, input } => PhysicalPlan::ExchangeSink {
                plan_id: *plan_id,
                input: Box::new(input.copied()),
            },
            PhysicalPlan::DeletePartial { plan_id, parts } => PhysicalPlan::DeletePartial {
                plan_id: *plan_id,
                parts: clone_parts(parts),
            },
            PhysicalPlan::ReplaceInto { plan_id, input, need_insert, segments } => PhysicalPlan::ReplaceInto {
                plan_id: *plan_id,
                input: Box::new(input.copied()),
                need_insert: *need_insert,
                segments: clone_segments(segments),
            },
            PhysicalPlan::Deduplicate { plan_id, input, need_insert } => PhysicalPlan::Deduplicate {
                plan_id: *plan_id,
                input: Box::new(input.copied()),
                need_insert: *need_insert,
            },
            PhysicalPlan::Operator { plan_id, inputs } => PhysicalPlan::Operator {
                plan_id: *plan_id,
                inputs: Self::copied_all(inputs),
            },
        }
    }

    /// Appends the sources that the plan reads.
    fn collect_sources(&self, out: &mut Vec<DataSourcePlan>)
        ensures
            source_views(final(out)@) == source_views(old(out)@) + plan_sources(self@),
        decreases self,
    {
        match self {
            PhysicalPlan::TableScan { plan_id: _, source } => {
                out.push(source.copied());
                assert(source_views(out@) =~= source_views(old(out)@) + seq![source@]);
            },
            PhysicalPlan::CopyIntoTable { plan_id: _, from } => match from {
                CopyIntoTableSource::Query(input) => input.collect_sources(out),
                CopyIntoTableSource::Stage(stage) => {
                    out.push(stage.copied());
                    assert(source_views(out@) =~= source_views(old(out)@) + seq![stage@]);
                },
            },
            PhysicalPlan::ExchangeSink { plan_id: _, input } => input.collect_sources(out),
            PhysicalPlan::DeletePartial { plan_id: _, parts: _ } => {
                assert(source_views(out@) =~= source_views(old(out)@) + Seq::<SourceView>::empty());
            },
            PhysicalPlan::ReplaceInto { plan_id: _, input, need_insert: _, segments: _ } => input.collect_sources(out),
            PhysicalPlan::Deduplicate { plan_id: _, input, need_insert: _ } => input.collect_sources(out),
            PhysicalPlan::Operator { plan_id: _, inputs } => Self::collect_all(inputs, out),
        }
    }

    fn collect_all(plans: &Vec<PhysicalPlan>, out: &mut Vec<DataSourcePlan>)
        ensures
            source_views(final(out)@) == source_views(old(out)@) + all_sources(
                plan_views(plans@),
                plan_views(plans@).len(),
            ),
        decreases plans,
    {
        let ghost views = plan_views(plans@);
        let ghost before = source_views(out@);
        let mut i: usize = 0;
        assert(before + all_sources(views, 0) =~= before);
        while i < plans.len()
            invariant
                i <= plans.len(),
                views == plan_views(plans@),
                views.len() == plans@.len(),
                source_views(out@) == before + all_sources(views, i as nat),
            decreases plans.len() - i,
        {
            assert(decreases_to!(plans => plans[i as int]));
            plans[i].collect_sources(out);
            assert(views[i as int] == plan_view(plans@[i as int]));
            assert(source_views(out@) =~= before + all_sources(views, (i + 1) as nat));
            i += 1;
        }
    }
}

pub open spec fn source_views(v: Seq<DataSourcePlan>) -> Seq<SourceView> {
    v.map_values(|s: DataSourcePlan| s@)
}

#[derive(Debug)]
pub struct PlanFragment {
    pub plan: PhysicalPlan,
    pub fragment_type: FragmentType,
    pub fragment_id: usize,
    pub exchange: Option<DataExchange>,
    pub query_id: String,
    /// The fragments to ask data from.
    pub source_fragments: Vec<PlanFragment>,
    /// The parts of the source, or of what is deleted from, as they are spread over the
    /// executors.
    pub spread: Vec<(String, Vec<u64>)>,
}

/// Where fragments can be run.
#[derive(Debug)]
pub struct ClusterContext {
    /// The executor on this node.
    pub local_executor: String,
    pub executors: Vec<String>,
    pub local_id: String,
}

/// A plan for an executor to run.
#[derive(Debug)]
pub struct QueryFragmentAction {
    pub executor: String,
    pub plan: PhysicalPlan,
}

pub struct ActionView {
    pub executor: Seq<char>,
    pub plan: PlanView,
}

impl View for QueryFragmentAction {
    type V = ActionView;

    open spec fn view(&self) -> ActionView {
        ActionView { executor: self.executor@, plan: self.plan@ }
    }
}

/// Who runs a fragment.
#[derive(Debug)]
pub struct QueryFragmentActions {
    pub fragment_id: usize,
    pub actions: Vec<QueryFragmentAction>,
    pub exchange: Option<DataExchange>,
}

pub struct FragmentActionsView {
    pub fragment_id: usize,
    pub actions: Seq<ActionView>,
    pub exchange: Option<DataExchange>,
}

impl View for QueryFragmentActions {
    type V = FragmentActionsView;

    open spec fn view(&self) -> FragmentActionsView {
        FragmentActionsView {
            fragment_id: self.fragment_id,
            actions: action_views(self.actions@),
            exchange: self.exchange,
        }
    }
}

pub open spec fn action_views(v: Seq<QueryFragmentAction>) -> Seq<ActionView> {
    v.map_values(|a: QueryFragmentAction| a@)
}

pub open spec fn fragment_actions_views(v: Seq<QueryFragmentActions>) -> Seq<FragmentActionsView> {
    v.map_values(|a: QueryFragmentActions| a@)
}

/// Where the parts of executor `i` begin: as many parts as the number of executors leaves over go
/// one each to the first executors, and the others are shared evenly.
pub open spec fn share_start(parts: nat, executors: nat, i: int) -> int {
    i * (parts / executors) + if i < parts % executors {
        i
    } else {
        (parts % executors) as int
    }
}

/// The parts of executor `i` in the order of the executors.
pub open spec fn share<T>(parts: Seq<T>, executors: nat, i: int) -> Seq<T> {
    parts.subrange(
        share_start(parts.len(), executors, i),
        share_start(parts.len(), executors, i + 1),
    )
}

/// The parts of the first `n` executors. Where two executors have one name, the later one
/// takes the place of the earlier.
pub open spec fn spread_of<T>(names: Seq<Seq<char>>, parts: Seq<T>, n: nat) -> Seq<(Seq<char>, Seq<T>)>
    decreases n,
{
    if n == 0 {
        Seq::empty()
    } else {
        let before = spread_of(names, parts, (n - 1) as nat);
        let entry = (names[n - 1], share(parts, names.len(), n - 1));
        if before.len() > 0 && before.last().0 == names[n - 1] {
            before.drop_last().push(entry)
        } else {
            before.push(entry)
        }
    }
}

pub open spec fn spread_views<T>(v: Seq<(String, Vec<T>)>) -> Seq<(Seq<char>, Seq<T>)> {
    v.map_values(|e: (String, Vec<T>)| (e.0@, e.1@))
}

/// The shares of the executors follow each other and make up all parts. The first
/// `parts % executors` executors get one part more than the others.
pub proof fn shares_cover_all_parts(parts: nat, executors: nat, i: int)
    requires
        executors > 0,
        0 <= i < executors,
    ensures
        share_start(parts, executors, 0) == 0,
        share_start(parts, executors, executors as int) == parts,
        0 <= share_start(parts, executors, i) <= share_start(parts, executors, i + 1) <= parts,
        share_start(parts, executors, i + 1) - share_start(parts, executors, i) == parts / executors + if i < parts
            % executors {
            1int
        } else {
            0
        },
{
    let d = executors as int;
    let q = parts as int / d;
    let rest = parts as int % d;
    vstd::arithmetic::div_mod::lemma_fundamental_div_mod(parts as int, d);
    vstd::arithmetic::div_mod::lemma_mod_bound(parts as int, d);
    vstd::arithmetic::div_mod::lemma_div_pos_is_pos(parts as int, d);
    assert(0 * q == 0 && d * q == q * d);
    assert((i + 1) * q == i * q + q && 0 <= i * q && (i + 1) * q <= d * q) by (nonlinear_arith)
        requires
            0 <= i < d,
            q >= 0,
    ;
}

impl PlanFragment {
    /// Spreads parts over the executors, in the order of their names.
    pub fn reshuffle<T: Copy>(executors: Vec<String>, partitions: &Vec<T>) -> (r: Vec<(String, Vec<T>)>)
        requires
            executors@.len() > 0,
        ensures
            spread_views(r@) == spread_of(
                sorted_texts(texts(executors@)),
                partitions@,
                executors@.len(),
            ),
    {
        let num_parts: usize = partitions.len();
        let ghost given = texts(executors@);
        let executors_sorted = sort_texts(executors);
        let ghost names = texts(executors_sorted@);
        proof {
            names.to_multiset_ensures();
            given.to_multiset_ensures();
        }
        let num_executors: usize = executors_sorted.len();
        let per_node: usize = num_parts / num_executors;
        let larger: usize = num_parts % num_executors;
        let mut spread: Vec<(String, Vec<T>)> = Vec::new();
        let mut idx: usize = 0;
        let mut begin: usize = 0;
        proof {
            shares_cover_all_parts(num_parts as nat, num_executors as nat, 0);
            assert(spread_views(spread@) =~= spread_of(names, partitions@, 0));
        }
        while idx < num_executors
            invariant
                idx <= num_executors,
                num_executors == executors_sorted@.len(),
                num_executors > 0,
                num_parts == partitions@.len(),
                per_node == num_parts as nat / num_executors as nat,
                larger == num_parts as nat % num_executors as nat,
                names == texts(executors_sorted@),
                begin == share_start(num_parts as nat, num_executors as nat, idx as int),
                spread_views(spread@) == spread_of(names, partitions@, idx as nat),
            decreases num_executors - idx,
        {
            proof {
                shares_cover_all_parts(num_parts as nat, num_executors as nat, idx as int);
            }
            // The first executors get one part more.
            let end: usize = if idx < larger {
                begin + per_node + 1
            } else {
                begin + per_node
            };
            let mut parts: Vec<T> = Vec::new();
            let mut k: usize = begin;
            while k < end
                invariant
                    begin <= k <= end,
                    end <= partitions@.len(),
                    parts@ == partitions@.subrange(begin as int, k as int),
                decreases end - k,
            {
                parts.push(partitions[k]);
                assert(partitions@.subrange(begin as int, k + 1) =~= partitions@.subrange(begin as int, k as int).push(
                    partitions@[k as int],
                ));
                k += 1;
            }
            let name = executors_sorted[idx].clone();
            let ghost before = spread@;
            let ghost entry = (name@, parts@);
            let replaces = spread.len() > 0 && same_text(spread[spread.len() - 1].0.as_str(), name.as_str());
            if replaces {
                let _ = spread.pop();
            }
            spread.push((name, parts));
            proof {
                assert(names[idx as int] == executors_sorted@[idx as int]@);
                if before.len() > 0 {
                    assert(spread_views(before).last() == (before.last().0@, before.last().1@));
                }
                if replaces {
                    assert(spread_views(spread@) =~= spread_views(before).drop_last().push(entry));
                } else {
                    assert(spread_views(spread@) =~= spread_views(before).push(entry));
                }
            }
            begin = end;
            idx += 1;
        }
        spread
    }

    /// The source that a source fragment reads.
    pub fn get_read_source(&self) -> (r: Result<DataSourcePlan, ErrorCode>)
        ensures
            r is Ok <==> self.fragment_type is Source && plan_sources(self.plan@).len() == 1,
            r matches Ok(s) ==> s@ == plan_sources(self.plan@)[0],
            r matches Err(e) ==> (e matches ErrorCode::Internal(m) && m@ == if !(self.fragment_type is Source) {
                "Cannot get read source from a non-source fragment"@
            } else {
                "Invalid source fragment with multiple table scan"@
            }),
    {
        if !matches!(self.fragment_type, FragmentType::Source) {
            return Err(ErrorCode::Internal("Cannot get read source from a non-source fragment".to_owned()));
        }
        let mut source: Vec<DataSourcePlan> = Vec::new();
        assert(source_views(source@) =~= Seq::<SourceView>::empty());
        self.plan.collect_sources(&mut source);
        assert(source_views(source@) =~= plan_sources(self.plan@));
        if source.len() != 1 {
            Err(ErrorCode::Internal("Invalid source fragment with multiple table scan".to_owned()))
        } else {
            assert(source_views(source@)[0] == source@[0]@);
            Ok(source.swap_remove(0))
        }
    }

    /// The fragment runs on every executor that has parts of its source, with those parts.
    fn redistribute_source_fragment(&self) -> (r: Result<QueryFragmentActions, ErrorCode>)
        ensures
            r is Ok <==> self.fragment_type is Source && plan_sources(self.plan@).len() == 1,
            r matches Ok(a) ==> a@ == (FragmentActionsView {
                fragment_id: self.fragment_id,
                actions: source_actions(*self),
                exchange: None,
            }),
            r matches Err(e) ==> (e matches ErrorCode::Internal(m) && m@ == if !(self.fragment_type is Source) {
                "Cannot redistribute a non-source fragment"@
            } else {
                "Invalid source fragment with multiple table scan"@
            }),
    {
        if !matches!(self.fragment_type, FragmentType::Source) {
            return Err(ErrorCode::Internal("Cannot redistribute a non-source fragment".to_owned()));
        }
        let read_source = match self.get_read_source() {
            Ok(source) => source,
            Err(e) => {
                return Err(e);
            },
        };
        let mut actions: Vec<QueryFragmentAction> = Vec::new();
        let mut i: usize = 0;
        while i < self.spread.len()
            invariant
                i <= self.spread.len(),
                actions@.len() == i,
                plan_sources(self.plan@).len() == 1,
                read_source@ == plan_sources(self.plan@)[0],
                forall|j: int| 0 <= j < i ==> (#[trigger] actions@[j])@ == source_actions(*self)[j],
            decreases self.spread.len() - i,
        {
            let replacer = PlanReplacer::ReplaceReadSource {
                source: DataSourcePlan { table: read_source.table, parts: clone_parts(&self.spread[i].1) },
            };
            actions.push(
                QueryFragmentAction { executor: self.spread[i].0.clone(), plan: replacer.replace(&self.plan) },
            );
            i += 1;
        }
        assert(action_views(actions@) =~= source_actions(*self));
        Ok(QueryFragmentActions { fragment_id: self.fragment_id, actions, exchange: None })
    }

    /// The fragment runs on every executor that has parts to delete from, with those parts.
    fn redistribute_delete_leaf(&self) -> (r: QueryFragmentActions)
        ensures
            r@ == (FragmentActionsView {
                fragment_id: self.fragment_id,
                actions: delete_actions(*self),
                exchange: None,
            }),
    {
        let mut actions: Vec<QueryFragmentAction> = Vec::new();
        let mut i: usize = 0;
        while i < self.spread.len()
            invariant
                i <= self.spread.len(),
                actions@.len() == i,
                forall|j: int| 0 <= j < i ==> (#[trigger] actions@[j])@ == delete_actions(*self)[j],
            decreases self.spread.len() - i,
        {
            let replacer = PlanReplacer::ReplaceDeletePartial { partitions: clone_parts(&self.spread[i].1) };
            actions.push(
                QueryFragmentAction { executor: self.spread[i].0.clone(), plan: replacer.replace(&self.plan) },
            );
            i += 1;
        }
        assert(action_views(actions@) =~= delete_actions(*self));
        QueryFragmentActions { fragment_id: self.fragment_id, actions, exchange: None }
    }

    /// The fragment runs on every executor, each with its share of the segments; rows are
    /// inserted on this node alone.
    fn redistribute_replace_into(&self, ctx: &ClusterContext) -> (r: QueryFragmentActions)
        requires
            replaces_into(self.plan@),
            ctx.executors@.len() > 0,
        ensures
            r@ == (FragmentActionsView {
                fragment_id: self.fragment_id,
                actions: replace_actions(*self, *ctx),
                exchange: None,
            }),
    {
        let mut executors: Vec<String> = Vec::new();
        let mut e: usize = 0;
        while e < ctx.executors.len()
            invariant
                e <= ctx.executors.len(),
                executors@.len() == e,
                forall|j: int| 0 <= j < e ==> (#[trigger] executors@[j])@ == ctx.executors@[j]@,
            decreases ctx.executors.len() - e,
        {
            executors.push(ctx.executors[e].clone());
            e += 1;
        }
        assert(texts(executors@) =~= texts(ctx.executors@));
        let segments = self.plan.segments();
        let spread = Self::reshuffle(executors, &segments);
        let mut actions: Vec<QueryFragmentAction> = Vec::new();
        let ghost expected = replace_actions(*self, *ctx);
        let mut i: usize = 0;
        while i < spread.len()
            invariant
                i <= spread.len(),
                actions@.len() == i,
                expected == replace_actions(*self, *ctx),
                spread_views(spread@) == spread_of(
                    sorted_texts(texts(ctx.executors@)),
                    replace_segments(self.plan@),
                    ctx.executors@.len(),
                ),
                forall|j: int| 0 <= j < i ==> (#[trigger] actions@[j])@ == expected[j],
            decreases spread.len() - i,
        {
            assert(spread_views(spread@)[i as int] == (spread@[i as int].0@, spread@[i as int].1@));
            let need_insert = same_text(spread[i].0.as_str(), ctx.local_id.as_str());
            let replacer = PlanReplacer::ReplaceReplaceInto { segments: clone_segments(&spread[i].1), need_insert };
            actions.push(QueryFragmentAction { executor: spread[i].0.clone(), plan: replacer.replace(&self.plan) });
            i += 1;
        }
        assert(action_views(actions@) =~= expected);
        QueryFragmentActions { fragment_id: self.fragment_id, actions, exchange: None }
    }

    /// Whether a fragment that this one asks data from merges its data.
    fn has_merge_input(&self) -> (r: bool)
        ensures
            r == merges_input(*self),
    {
        let mut i: usize = 0;
        while i < self.source_fragments.len()
            invariant
                i <= self.source_fragments.len(),
                forall|j: int|
                    0 <= j < i ==> !((#[trigger] self.source_fragments@[j]).exchange matches Some(DataExchange::Merge(_))),
            decreases self.source_fragments.len() - i,
        {
            if matches!(self.source_fragments[i].exchange, Some(DataExchange::Merge(_))) {
                return true;
            }
            i += 1;
        }
        false
    }

    /// Appends who runs the fragments that this one asks data from, and then who runs this one.
    pub fn get_actions(&self, ctx: &ClusterContext, actions: &mut Vec<QueryFragmentActions>) -> (r: Result<(), ErrorCode>)
        requires
            fragment_ok(*self, *ctx),
        ensures
            r is Ok <==> sources_ok(*self),
            fragment_actions_views(final(actions)@) == fragment_actions_views(old(actions)@) + actions_until_failure(
                *self,
                *ctx,
            ),
            r is Ok ==> fragment_actions_views(final(actions)@) == fragment_actions_views(old(actions)@) + all_actions(
                *self,
                *ctx,
            ),
            r matches Err(e) ==> (e matches ErrorCode::Internal(m) && m@
                == "Invalid source fragment with multiple table scan"@),
            old(actions)@.len() <= final(actions)@.len(),
            final(actions)@.take(old(actions)@.len() as int) == old(actions)@,
        decreases self,
    {
        match Self::get_all_actions(&self.source_fragments, ctx, actions) {
            Ok(_) => {},
            Err(e) => {
                return Err(e);
            },
        }
        let ghost middle = actions@;
        let mut fragment_actions = match self.fragment_type {
            FragmentType::Root => self.local_action(ctx),
            FragmentType::Intermediate => {
                if self.has_merge_input() {
                    // An intermediate fragment with merge input runs on the coordinator only.
                    self.local_action(ctx)
                } else {
                    self.actions_everywhere(ctx)
                }
            },
            FragmentType::Source => match self.redistribute_source_fragment() {
                Ok(a) => a,
                Err(e) => {
                    return Err(e);
                },
            },
            FragmentType::DeleteLeaf => self.redistribute_delete_leaf(),
            FragmentType::ReplaceInto => self.redistribute_replace_into(ctx),
        };
        fragment_actions.exchange = self.exchange;
        let ghost own = fragment_actions@;
        assert(own == own_actions(*self, *ctx));
        actions.push(fragment_actions);
        proof {
            assert(fragment_actions_views(actions@) =~= fragment_actions_views(middle).push(own));
            assert(fragment_actions_views(actions@) =~= fragment_actions_views(old(actions)@) + all_actions(*self, *ctx));
            assert(fragment_actions_views(actions@) =~= fragment_actions_views(old(actions)@) + actions_until_failure(
                *self,
                *ctx,
            ));
            assert(actions@.take(old(actions)@.len() as int) =~= old(actions)@) by {
                assert forall|j: int| 0 <= j < old(actions)@.len() implies actions@[j] == old(actions)@[j] by {
                    assert(middle.take(old(actions)@.len() as int)[j] == middle[j]);
                }
            }
        }
        Ok(())
    }

    fn get_all_actions(
        fragments: &Vec<PlanFragment>,
        ctx: &ClusterContext,
        actions: &mut Vec<QueryFragmentActions>,
    ) -> (r: Result<(), ErrorCode>)
        requires
            fragments_ok(fragments@, *ctx),
        ensures
            r is Ok <==> all_sources_ok(fragments@),
            fragment_actions_views(final(actions)@) == fragment_actions_views(old(actions)@) + all_until_failure(
                fragments@,
                *ctx,
                fragments@.len(),
            ),
            r is Ok ==> fragment_actions_views(final(actions)@) == fragment_actions_views(old(actions)@) + actions_of_all(
                fragments@,
                *ctx,
                fragments@.len(),
            ),
            r matches Err(e) ==> (e matches ErrorCode::Internal(m) && m@
                == "Invalid source fragment with multiple table scan"@),
            old(actions)@.len() <= final(actions)@.len(),
            final(actions)@.take(old(actions)@.len() as int) == old(actions)@,
        decreases fragments,
    {
        let ghost before = actions@;
        let mut i: usize = 0;
        proof {
            assert(fragment_actions_views(before) + actions_of_all(fragments@, *ctx, 0) =~= fragment_actions_views(before));
            assert(fragment_actions_views(before) + all_until_failure(fragments@, *ctx, 0) =~= fragment_actions_views(
                before,
            ));
            assert(before.take(before.len() as int) =~= before);
        }
        while i < fragments.len()
            invariant
                i <= fragments.len(),
                fragments_ok(fragments@, *ctx),
                before == old(actions)@,
                before.len() <= actions@.len(),
                actions@.take(before.len() as int) == before,
                fragment_actions_views(actions@) == fragment_actions_views(before) + actions_of_all(
                    fragments@,
                    *ctx,
                    i as nat,
                ),
                fragment_actions_views(actions@) == fragment_actions_views(before) + all_until_failure(
                    fragments@,
                    *ctx,
                    i as nat,
                ),
                forall|j: int| 0 <= j < i ==> sources_ok(#[trigger] fragments@[j]),
            decreases fragments.len() - i,
        {
            assert(decreases_to!(fragments => fragments[i as int]));
            assert(fragment_ok(fragments@[i as int], *ctx));
            let ghost was = actions@;
            let step = fragments[i].get_actions(ctx, actions);
            proof {
                assert(actions@.take(before.len() as int) =~= before) by {
                    assert forall|j: int| 0 <= j < before.len() implies actions@[j] == before[j] by {
                        assert(actions@.take(was.len() as int)[j] == was[j]);
                        assert(was.take(before.len() as int)[j] == before[j]);
                    }
                }
            }
            proof {
                assert(fragment_actions_views(actions@) =~= fragment_actions_views(before) + all_until_failure(
                    fragments@,
                    *ctx,
                    (i + 1) as nat,
                ));
            }
            match step {
                Ok(_) => {},
                Err(e) => {
                    assert(!sources_ok(fragments@[i as int]));
                    proof {
                        lemma_nothing_after_failure(fragments@, *ctx, i as int, fragments@.len());
                    }
                    return Err(e);
                },
            }
            proof {
                assert(fragment_actions_views(actions@) =~= fragment_actions_views(before) + actions_of_all(
                    fragments@,
                    *ctx,
                    (i + 1) as nat,
                ));
            }
            i += 1;
        }
        Ok(())
    }

    /// The fragment runs on this node.
    fn local_action(&self, ctx: &ClusterContext) -> (r: QueryFragmentActions)
        ensures
            r@ == (FragmentActionsView {
                fragment_id: self.fragment_id,
                actions: seq![ActionView { executor: ctx.local_executor@, plan: self.plan@ }],
                exchange: None,
            }),
    {
        let mut actions: Vec<QueryFragmentAction> = Vec::new();
        actions.push(QueryFragmentAction { executor: ctx.local_executor.clone(), plan: self.plan.copied() });
        assert(action_views(actions@) =~= seq![ActionView { executor: ctx.local_executor@, plan: self.plan@ }]);
        QueryFragmentActions { fragment_id: self.fragment_id, actions, exchange: None }
    }

    /// The fragment runs on every executor.
    fn actions_everywhere(&self, ctx: &ClusterContext) -> (r: QueryFragmentActions)
        ensures
            r@ == (FragmentActionsView {
                fragment_id: self.fragment_id,
                actions: everywhere(*self, *ctx),
                exchange: None,
            }),
    {
        let mut actions: Vec<QueryFragmentAction> = Vec::new();
        let mut i: usize = 0;
        while i < ctx.executors.len()
            invariant
                i <= ctx.executors.len(),
                actions@.len() == i,
                forall|j: int| 0 <= j < i ==> (#[trigger] actions@[j])@ == everywhere(*self, *ctx)[j],
            decreases ctx.executors.len() - i,
        {
            actions.push(QueryFragmentAction { executor: ctx.executors[i].clone(), plan: self.plan.copied() });
            i += 1;
        }
        assert(action_views(actions@) =~= everywhere(*self, *ctx));
        QueryFragmentActions { fragment_id: self.fragment_id, actions, exchange: None }
    }
}

impl PhysicalPlan {
    /// The segments that a plan replaces into.
    fn segments(&self) -> (r: Vec<SegmentLocation>)
        requires
            replaces_into(self@),
        ensures
            r@ == replace_segments(self@),
    {
        proof {
            reveal_with_fuel(plan_view, 3);
        }
        match self {
            PhysicalPlan::ExchangeSink { plan_id: _, input } => match &**input {
                PhysicalPlan::ReplaceInto { plan_id: _, input: _, need_insert: _, segments } => clone_segments(segments),
                _ => Vec::new(),
            },
            _ => Vec::new(),
        }
    }
}

/// The plan sinks what a `ReplaceInto` hands on.
pub open spec fn replaces_into(p: PlanView) -> bool {
    p matches PlanView::ExchangeSink { plan_id, input } && (*input) is ReplaceInto
}

/// The plan sinks what a `DeletePartial` hands on.
pub open spec fn deletes(p: PlanView) -> bool {
    p matches PlanView::ExchangeSink { plan_id, input } && (*input) is DeletePartial
}

pub open spec fn replace_segments(p: PlanView) -> Seq<SegmentLocation> {
    match p {
        PlanView::ExchangeSink { plan_id, input } => match *input {
            PlanView::ReplaceInto { plan_id, input, need_insert, segments } => segments,
            _ => Seq::empty(),
        },
        _ => Seq::empty(),
    }
}

pub open spec fn source_actions(f: PlanFragment) -> Seq<ActionView> {
    f.spread@.map_values(
        |e: (String, Vec<u64>)|
            ActionView {
                executor: e.0@,
                plan: replaced(
                    f.plan@,
                    ReplacerView::ReplaceReadSource {
                        source: SourceView { table: plan_sources(f.plan@)[0].table, parts: e.1@ },
                    },
                ),
            },
    )
}

pub open spec fn delete_actions(f: PlanFragment) -> Seq<ActionView> {
    f.spread@.map_values(
        |e: (String, Vec<u64>)|
            ActionView {
                executor: e.0@,
                plan: replaced(f.plan@, ReplacerView::ReplaceDeletePartial { partitions: e.1@ }),
            },
    )
}

pub open spec fn replace_actions(f: PlanFragment, ctx: ClusterContext) -> Seq<ActionView> {
    spread_of(sorted_texts(texts(ctx.executors@)), replace_segments(f.plan@), ctx.executors@.len()).map_values(
        |e: (Seq<char>, Seq<SegmentLocation>)|
            ActionView {
                executor: e.0,
                plan: replaced(
                    f.plan@,
                    ReplacerView::ReplaceReplaceInto { segments: e.1, need_insert: e.0 == ctx.local_id@ },
                ),
            },
    )
}

pub open spec fn everywhere(f: PlanFragment, ctx: ClusterContext) -> Seq<ActionView> {
    ctx.executors@.map_values(|e: String| ActionView { executor: e@, plan: f.plan@ })
}

pub open spec fn merges_input(f: PlanFragment) -> bool {
    exists|j: int|
        0 <= j < f.source_fragments@.len() && ((#[trigger] f.source_fragments@[j]).exchange matches Some(
            DataExchange::Merge(_),
        ))
}

/// Who runs a fragment.
pub open spec fn own_actions(f: PlanFragment, ctx: ClusterContext) -> FragmentActionsView {
    FragmentActionsView {
        fragment_id: f.fragment_id,
        actions: match f.fragment_type {
            FragmentType::Root => seq![ActionView { executor: ctx.local_executor@, plan: f.plan@ }],
            FragmentType::Intermediate => if merges_input(f) {
                seq![ActionView { executor: ctx.local_executor@, plan: f.plan@ }]
            } else {
                everywhere(f, ctx)
            },
            FragmentType::Source => source_actions(f),
            FragmentType::DeleteLeaf => delete_actions(f),
            FragmentType::ReplaceInto => replace_actions(f, ctx),
        },
        exchange: f.exchange,
    }
}

/// Who runs the fragments that a fragment asks data from, and who runs the fragment.
pub open spec fn all_actions(f: PlanFragment, ctx: ClusterContext) -> Seq<FragmentActionsView>
    decreases f, 0nat,
{
    actions_of_all(f.source_fragments@, ctx, f.source_fragments@.len()).push(own_actions(f, ctx))
}

/// The actions of the fragments that come before the one at which the actions of a fragment
/// cannot be found; all of them where there is none.
pub open spec fn actions_until_failure(f: PlanFragment, ctx: ClusterContext) -> Seq<FragmentActionsView>
    decreases f,
{
    let before = all_until_failure(f.source_fragments@, ctx, f.source_fragments@.len());
    if sources_ok(f) {
        before.push(own_actions(f, ctx))
    } else {
        before
    }
}

pub open spec fn all_until_failure(fs: Seq<PlanFragment>, ctx: ClusterContext, n: nat) -> Seq<FragmentActionsView>
    decreases fs, n,
{
    if n == 0 || n > fs.len() {
        Seq::empty()
    } else {
        let before = all_until_failure(fs, ctx, (n - 1) as nat);
        if forall|j: int| 0 <= j < n - 1 ==> sources_ok(#[trigger] fs[j]) {
            before + actions_until_failure(fs[n - 1], ctx)
        } else {
            before
        }
    }
}

pub open spec fn actions_of_all(fs: Seq<PlanFragment>, ctx: ClusterContext, n: nat) -> Seq<FragmentActionsView>
    decreases fs, n,
{
    if n == 0 || n > fs.len() {
        Seq::empty()
    } else {
        actions_of_all(fs, ctx, (n - 1) as nat) + all_actions(fs[n - 1], ctx)
    }
}

/// After a failure nothing is added.
proof fn lemma_nothing_after_failure(fs: Seq<PlanFragment>, ctx: ClusterContext, i: int, n: nat)
    requires
        0 <= i < n <= fs.len(),
        !sources_ok(fs[i]),
    ensures
        all_until_failure(fs, ctx, n) == all_until_failure(fs, ctx, (i + 1) as nat),
    decreases n,
{
    if n > i + 1 {
        lemma_nothing_after_failure(fs, ctx, i, (n - 1) as nat);
    }
}

/// Every source fragment reads exactly one source.
pub open spec fn sources_ok(f: PlanFragment) -> bool
    decreases f,
{
    &&& f.fragment_type is Source ==> plan_sources(f.plan@).len() == 1
    &&& all_sources_ok(f.source_fragments@)
}

pub open spec fn all_sources_ok(fs: Seq<PlanFragment>) -> bool
    decreases fs,
{
    forall|i: int| 0 <= i < fs.len() ==> sources_ok(#[trigger] fs[i])
}

/// The plans of the fragments are what their types say, and there are executors to spread
/// segments over.
pub open spec fn fragment_ok(f: PlanFragment, ctx: ClusterContext) -> bool
    decreases f,
{
    &&& f.fragment_type is DeleteLeaf ==> deletes(f.plan@)
    &&& f.fragment_type is ReplaceInto ==> replaces_into(f.plan@) && ctx.executors@.len() > 0
    &&& fragments_ok(f.source_fragments@, ctx)
}

pub open spec fn fragments_ok(fs: Seq<PlanFragment>, ctx: ClusterContext) -> bool
    decreases fs,
{
    forall|i: int| 0 <= i < fs.len() ==> fragment_ok(#[trigger] fs[i], ctx)
}

/// Lists one after the other.
pub open spec fn in_turn<T>(lists: Seq<Seq<T>>) -> Seq<T> {
    lists.fold_left(Seq::<T>::empty(), |before: Seq<T>, list: Seq<T>| before + list)
}

proof fn lemma_in_turn_push<T>(lists: Seq<Seq<T>>, list: Seq<T>)
    ensures
        in_turn(lists.push(list)) == in_turn(lists) + list,
{
    assert(lists.push(list).drop_last() =~= lists);
}

/// The actions of a fragment come behind those of the fragments that it asks data from, which come
/// in their order; they stand under its id and with its exchange.
pub proof fn a_fragment_comes_behind_its_sources(f: PlanFragment, ctx: ClusterContext)
    ensures
        all_actions(f, ctx).drop_last() == in_turn(
            f.source_fragments@.map_values(|s: PlanFragment| all_actions(s, ctx)),
        ),
        all_actions(f, ctx).last().fragment_id == f.fragment_id,
        all_actions(f, ctx).last().exchange == f.exchange,
{
    let fs = f.source_fragments@;
    lemma_actions_in_turn(fs, ctx, fs.len());
    assert(fs.take(fs.len() as int) =~= fs);
    assert(all_actions(f, ctx).drop_last() =~= actions_of_all(fs, ctx, fs.len()));
}

proof fn lemma_actions_in_turn(fs: Seq<PlanFragment>, ctx: ClusterContext, n: nat)
    requires
        n <= fs.len(),
    ensures
        actions_of_all(fs, ctx, n) == in_turn(fs.take(n as int).map_values(|s: PlanFragment| all_actions(s, ctx))),
    decreases n,
{
    let of = |s: PlanFragment| all_actions(s, ctx);
    if n > 0 {
        lemma_actions_in_turn(fs, ctx, (n - 1) as nat);
        assert(fs.take(n as int).map_values(of) =~= fs.take(n - 1).map_values(of).push(of(fs[n - 1])));
        lemma_in_turn_push(fs.take(n - 1).map_values(of), of(fs[n - 1]));
    } else {
        assert(fs.take(0).map_values(of) =~= Seq::<Seq<FragmentActionsView>>::empty());
    }
}

/// A root fragment runs on this node alone.
pub proof fn a_root_runs_on_this_node(f: PlanFragment, ctx: ClusterContext)
    requires
        f.fragment_type is Root,
    ensures
        ({
            let actions = all_actions(f, ctx).last().actions;
            actions.len() == 1 && actions[0].executor == ctx.local_executor@ && actions[0].plan == f.plan@
        }),
{
}

/// An intermediate fragment one of whose inputs is merged runs on this node alone, where the
/// merged data is; one without such an input runs on every executor of the cluster, in their
/// order. Its plan is run as it is.
pub proof fn merged_input_keeps_a_fragment_on_this_node(f: PlanFragment, ctx: ClusterContext)
    requires
        f.fragment_type is Intermediate,
    ensures
        ({
            let actions = all_actions(f, ctx).last().actions;
            &&& (exists|j: int|
                0 <= j < f.source_fragments@.len() && ((#[trigger] f.source_fragments@[j]).exchange matches Some(
                    DataExchange::Merge(_),
                ))) ==> actions.len() == 1 && actions[0].executor == ctx.local_executor@ && actions[0].plan == f.plan@
            &&& (forall|j: int|
                0 <= j < f.source_fragments@.len() ==> !((#[trigger] f.source_fragments@[j]).exchange matches Some(
                    DataExchange::Merge(_),
                ))) ==> actions.len() == ctx.executors@.len() && forall|i: int|
                0 <= i < actions.len() ==> (#[trigger] actions[i]).executor == ctx.executors@[i]@ && actions[i].plan
                    == f.plan@
        }),
{
}

/// A source fragment runs on every executor that parts are spread to, in their order. Each reads
/// of the table exactly the parts that are spread to it, and is for the rest the same plan.
pub proof fn each_executor_reads_its_parts(f: PlanFragment, ctx: ClusterContext, i: int)
    requires
        f.fragment_type is Source,
        sources_ok(f),
        0 <= i < f.spread@.len(),
    ensures
        ({
            let actions = all_actions(f, ctx).last().actions;
            let source = plan_sources(f.plan@)[0];
            &&& actions.len() == f.spread@.len()
            &&& actions[i].executor == f.spread@[i].0@
            &&& plan_sources(actions[i].plan) == seq![SourceView { table: source.table, parts: f.spread@[i].1@ }]
            &&& replaced(actions[i].plan, ReplacerView::ReplaceReadSource { source }) == f.plan@
        }),
{
    let source = plan_sources(f.plan@)[0];
    let own = SourceView { table: source.table, parts: f.spread@[i].1@ };
    let r = ReplacerView::ReplaceReadSource { source: own };
    lemma_sources_replaced(f.plan@, own);
    assert(plan_sources(replaced(f.plan@, r)) =~= seq![own]);
    lemma_replaced_back(f.plan@, own, source);
}

/// Every source of a plan gives way to the one that is put in its place.
proof fn lemma_sources_replaced(p: PlanView, source: SourceView)
    ensures
        plan_sources(replaced(p, ReplacerView::ReplaceReadSource { source })).len() == plan_sources(p).len(),
        forall|i: int|
            0 <= i < plan_sources(p).len() ==> #[trigger] plan_sources(
                replaced(p, ReplacerView::ReplaceReadSource { source }),
            )[i] == source,
    decreases p,
{
    let r = ReplacerView::ReplaceReadSource { source };
    match p {
        PlanView::CopyFromQuery { plan_id, input } => lemma_sources_replaced(*input, source),
        PlanView::ExchangeSink { plan_id, input } => lemma_sources_replaced(*input, source),
        PlanView::ReplaceInto { plan_id, input, need_insert, segments } => lemma_sources_replaced(*input, source),
        PlanView::Deduplicate { plan_id, input, need_insert } => lemma_sources_replaced(*input, source),
        PlanView::Operator { plan_id, inputs } => {
            assert forall|i: int| 0 <= i < inputs.len() implies sources_gave_way(#[trigger] inputs[i], source) by {
                lemma_sources_replaced(inputs[i], source);
            }
            lemma_all_sources_replaced(inputs, source, inputs.len());
        },
        _ => {},
    }
}

spec fn sources_gave_way(p: PlanView, source: SourceView) -> bool {
    let now = plan_sources(replaced(p, ReplacerView::ReplaceReadSource { source }));
    now.len() == plan_sources(p).len() && forall|i: int| 0 <= i < now.len() ==> #[trigger] now[i] == source
}

proof fn lemma_all_sources_replaced(ps: Seq<PlanView>, source: SourceView, n: nat)
    requires
        n <= ps.len(),
        forall|i: int| 0 <= i < ps.len() ==> sources_gave_way(#[trigger] ps[i], source),
    ensures
        ({
            let now = all_sources(all_replaced(ps, ReplacerView::ReplaceReadSource { source }), n);
            now.len() == all_sources(ps, n).len() && forall|i: int| 0 <= i < now.len() ==> #[trigger] now[i] == source
        }),
    decreases n,
{
    if n > 0 {
        let r = ReplacerView::ReplaceReadSource { source };
        lemma_all_sources_replaced(ps, source, (n - 1) as nat);
        assert(sources_gave_way(ps[n - 1], source));
        assert(all_replaced(ps, r)[n - 1] == replaced(ps[n - 1], r));
        let before = all_sources(all_replaced(ps, r), (n - 1) as nat);
        let last = plan_sources(replaced(ps[n - 1], r));
        let now = all_sources(all_replaced(ps, r), n);
        assert(now == before + last);
        assert forall|i: int| 0 <= i < now.len() implies #[trigger] now[i] == source by {
            if i < before.len() {
                assert(before[i] == source);
            } else {
                assert(last[i - before.len()] == source);
            }
        }
    }
}

/// Where all sources of a plan are the same, putting them back restores the plan.
proof fn lemma_replaced_back(p: PlanView, other: SourceView, source: SourceView)
    requires
        forall|i: int| 0 <= i < plan_sources(p).len() ==> #[trigger] plan_sources(p)[i] == source,
    ensures
        replaced(
            replaced(p, ReplacerView::ReplaceReadSource { source: other }),
            ReplacerView::ReplaceReadSource { source },
        ) == p,
    decreases p,
{
    let there = ReplacerView::ReplaceReadSource { source: other };
    let back = ReplacerView::ReplaceReadSource { source };
    match p {
        PlanView::TableScan { plan_id, source: s } => {
            assert(plan_sources(p)[0] == source);
        },
        PlanView::CopyFromStage { plan_id, source: s } => {
            assert(plan_sources(p)[0] == source);
        },
        PlanView::CopyFromQuery { plan_id, input } => {
            assert(plan_sources(p) == plan_sources(*input));
            lemma_replaced_back(*input, other, source);
        },
        PlanView::ExchangeSink { plan_id, input } => {
            assert(plan_sources(p) == plan_sources(*input));
            lemma_replaced_back(*input, other, source);
        },
        PlanView::ReplaceInto { plan_id, input, need_insert, segments } => {
            assert(plan_sources(p) == plan_sources(*input));
            lemma_replaced_back(*input, other, source);
        },
        PlanView::Deduplicate { plan_id, input, need_insert } => {
            assert(plan_sources(p) == plan_sources(*input));
            lemma_replaced_back(*input, other, source);
        },
        PlanView::Operator { plan_id, inputs } => {
            assert forall|i: int| 0 <= i < inputs.len() implies replaced(replaced(#[trigger] inputs[i], there), back)
                == inputs[i] by {
                lemma_sources_within(inputs, i, inputs.len());
                let all = plan_sources(p);
                assert forall|k: int| 0 <= k < plan_sources(inputs[i]).len() implies #[trigger] plan_sources(
                    inputs[i],
                )[k] == source by {
                    assert(all.contains(plan_sources(inputs[i])[k]));
                }
                lemma_replaced_back(inputs[i], other, source);
            }
            assert(all_replaced(all_replaced(inputs, there), back) =~= inputs);
        },
        _ => {},
    }
}

/// The sources of an input are among those of all.
proof fn lemma_sources_within(ps: Seq<PlanView>, i: int, n: nat)
    requires
        0 <= i < n <= ps.len(),
    ensures
        forall|k: int|
            0 <= k < plan_sources(ps[i]).len() ==> all_sources(ps, n).contains(#[trigger] plan_sources(ps[i])[k]),
    decreases n,
{
    let before = all_sources(ps, (n - 1) as nat);
    let now = all_sources(ps, n);
    let last = plan_sources(ps[n - 1]);
    if i < n - 1 {
        lemma_sources_within(ps, i, (n - 1) as nat);
    }
    assert forall|k: int| 0 <= k < plan_sources(ps[i]).len() implies now.contains(#[trigger] plan_sources(ps[i])[k]) by {
        let s = plan_sources(ps[i])[k];
        if i < n - 1 {
            assert(before.contains(s));
            let j = choose|j: int| 0 <= j < before.len() && before[j] == s;
            assert(now[j] == s);
        } else {
            assert(now[before.len() + k] == s);
        }
    }
}

/// A delete leaf runs on every executor that parts are spread to, in their order, and deletes there
/// from exactly the parts that are spread to it.
pub proof fn each_executor_deletes_from_its_parts(f: PlanFragment, ctx: ClusterContext, i: int)
    requires
        f.fragment_type is DeleteLeaf,
        deletes(f.plan@),
        0 <= i < f.spread@.len(),
    ensures
        ({
            let actions = all_actions(f, ctx).last().actions;
            &&& actions.len() == f.spread@.len()
            &&& actions[i].executor == f.spread@[i].0@
            &&& f.plan@ matches PlanView::ExchangeSink { plan_id: sink, input } && (*input matches PlanView::DeletePartial {
                plan_id,
                parts: _,
            } && (actions[i].plan matches PlanView::ExchangeSink { plan_id: new_sink, input: new_input } && (*new_input
                matches PlanView::DeletePartial { plan_id: new_id, parts } && new_sink == sink && new_id == plan_id
                && parts == f.spread@[i].1@)))
        }),
{
    reveal_with_fuel(replaced, 3);
}

/// Parts that are spread over executors of different names: every executor gets a share, in the
/// order of their names; the shares one after the other are all parts; and no share is more than
/// one part larger than another, the larger ones first.
pub proof fn a_spread_shares_out_all_parts<T>(names: Seq<Seq<char>>, parts: Seq<T>)
    requires
        names.len() > 0,
        names.no_duplicates(),
    ensures
        ({
            let spread = spread_of(names, parts, names.len());
            &&& spread.len() == names.len()
            &&& forall|i: int| 0 <= i < names.len() ==> (#[trigger] spread[i]).0 == names[i]
            &&& in_turn(spread.map_values(|e: (Seq<char>, Seq<T>)| e.1)) == parts
            &&& forall|i: int, j: int|
                #![trigger spread[i], spread[j]]
                0 <= i < j < names.len() ==> spread[j].1.len() <= spread[i].1.len() <= spread[j].1.len() + 1
        }),
{
    let n = names.len();
    lemma_spread_prefix(names, parts, n);
    shares_cover_all_parts(parts.len(), n, 0);
    assert(parts.take(parts.len() as int) =~= parts);
    let spread = spread_of(names, parts, n);
    assert forall|i: int, j: int|
        #![trigger spread[i], spread[j]]
        0 <= i < j < n implies spread[j].1.len() <= spread[i].1.len() <= spread[j].1.len() + 1 by {
        shares_cover_all_parts(parts.len(), n, i);
        shares_cover_all_parts(parts.len(), n, j);
    }
}

proof fn lemma_spread_prefix<T>(names: Seq<Seq<char>>, parts: Seq<T>, k: nat)
    requires
        names.len() > 0,
        names.no_duplicates(),
        k <= names.len(),
    ensures
        ({
            let spread = spread_of(names, parts, k);
            &&& spread.len() == k
            &&& forall|i: int|
                0 <= i < k ==> (#[trigger] spread[i]).0 == names[i] && spread[i].1 == share(parts, names.len(), i)
            &&& in_turn(spread.map_values(|e: (Seq<char>, Seq<T>)| e.1)) == parts.take(
                share_start(parts.len(), names.len(), k as int),
            )
        }),
    decreases k,
{
    let of = |e: (Seq<char>, Seq<T>)| e.1;
    let spread = spread_of(names, parts, k);
    if k > 0 {
        lemma_spread_prefix(names, parts, (k - 1) as nat);
        let before = spread_of(names, parts, (k - 1) as nat);
        let entry = (names[k - 1], share(parts, names.len(), k - 1));
        if before.len() > 0 {
            assert(before.last().0 == names[k - 2]);
            assert(names[k - 2] != names[k - 1]);
        }
        assert(spread == before.push(entry));
        assert(spread.map_values(of) =~= before.map_values(of).push(entry.1));
        lemma_in_turn_push(before.map_values(of), entry.1);
        shares_cover_all_parts(parts.len(), names.len(), k - 1);
        let from = share_start(parts.len(), names.len(), k - 1);
        let to = share_start(parts.len(), names.len(), k as int);
        assert(parts.take(to) =~= parts.take(from) + parts.subrange(from, to));
    } else {
        shares_cover_all_parts(parts.len(), names.len(), 0);
        assert(spread.map_values(of) =~= Seq::<Seq<T>>::empty());
        assert(parts.take(0) =~= Seq::<T>::empty());
    }
}

/// What a plan that replaces into segments does there: the segments, and whether rows are inserted.
pub open spec fn replaces_there(p: PlanView) -> (Seq<SegmentLocation>, bool) {
    match p {
        PlanView::ExchangeSink { plan_id: _, input } => match *input {
            PlanView::ReplaceInto { plan_id: _, input: _, need_insert, segments } => (segments, need_insert),
            _ => arbitrary(),
        },
        _ => arbitrary(),
    }
}

/// A `ReplaceInto` fragment runs on every executor, where their names are different. The segments
/// of the executors, in the order of their names, are all segments of the plan, so that each
/// segment is replaced into once, and no executor has two segments more than another. Rows are
/// inserted by the executor of this node and by no other.
pub proof fn segments_are_replaced_once_and_rows_inserted_here(f: PlanFragment, ctx: ClusterContext)
    requires
        f.fragment_type is ReplaceInto,
        replaces_into(f.plan@),
        ctx.executors@.len() > 0,
        texts(ctx.executors@).no_duplicates(),
    ensures
        ({
            let actions = all_actions(f, ctx).last().actions;
            &&& actions.map_values(|a: ActionView| a.executor).to_multiset() == texts(ctx.executors@).to_multiset()
            &&& in_turn(actions.map_values(|a: ActionView| replaces_there(a.plan).0)) == replaces_there(f.plan@).0
            &&& forall|i: int|
                0 <= i < actions.len() ==> replaces_into((#[trigger] actions[i]).plan) && (replaces_there(
                    actions[i].plan,
                ).1 <==> actions[i].executor == ctx.local_id@)
            &&& forall|i: int, j: int|
                #![trigger actions[i], actions[j]]
                0 <= i < actions.len() && 0 <= j < actions.len() ==> replaces_there(actions[i].plan).0.len()
                    <= replaces_there(actions[j].plan).0.len() + 1
        }),
{
    reveal_with_fuel(replaced, 3);
    let given = texts(ctx.executors@);
    let names = sorted_texts(given);
    lemma_sorting_exists(given);
    assert(is_sorting(given, names));
    given.to_multiset_ensures();
    names.to_multiset_ensures();
    given.lemma_multiset_has_no_duplicates();
    assert forall|x: Seq<char>| names.to_multiset().contains(x) implies names.to_multiset().count(x) == 1 by {
        assert(given.to_multiset().contains(x));
    }
    names.lemma_multiset_has_no_duplicates_conv();
    let parts = replace_segments(f.plan@);
    a_spread_shares_out_all_parts(names, parts);
    let spread = spread_of(names, parts, names.len());
    let actions = all_actions(f, ctx).last().actions;
    assert(actions == replace_actions(f, ctx));
    assert(actions.map_values(|a: ActionView| a.executor) =~= names);
    assert(actions.map_values(|a: ActionView| replaces_there(a.plan).0) =~= spread.map_values(
        |e: (Seq<char>, Seq<SegmentLocation>)| e.1,
    ));
    assert forall|i: int, j: int|
        #![trigger actions[i], actions[j]]
        0 <= i < actions.len() && 0 <= j < actions.len() implies replaces_there(actions[i].plan).0.len()
        <= replaces_there(actions[j].plan).0.len() + 1 by {
        assert(replaces_there(actions[i].plan).0 == spread[i].1);
        assert(replaces_there(actions[j].plan).0 == spread[j].1);
    }
}

/// Where every source fragment can be spread, all actions are found. Where one cannot, those that
/// were found before it stay, and no others are added.
pub proof fn what_was_found_before_a_failure_stays(f: PlanFragment, ctx: ClusterContext)
    ensures
        sources_ok(f) ==> actions_until_failure(f, ctx) == all_actions(f, ctx),
        actions_until_failure(f, ctx).len() <= all_actions(f, ctx).len(),
        actions_until_failure(f, ctx) == all_actions(f, ctx).take(actions_until_failure(f, ctx).len() as int),
        !sources_ok(f) ==> actions_until_failure(f, ctx).len() < all_actions(f, ctx).len(),
    decreases f,
{
    let fs = f.source_fragments@;
    let n = fs.len();
    assert forall|i: int| 0 <= i < fs.len() implies stays_before(#[trigger] fs[i], ctx) by {
        what_was_found_before_a_failure_stays(fs[i], ctx);
    }
    lemma_all_before_failure(fs, ctx, n);
    let some = all_until_failure(fs, ctx, n);
    let all = actions_of_all(fs, ctx, n);
    let whole = all_actions(f, ctx);
    assert(whole == all.push(own_actions(f, ctx)));
    assert(sources_ok(f) <==> (f.fragment_type is Source ==> plan_sources(f.plan@).len() == 1) && all_sources_ok(fs));
    if sources_ok(f) {
        assert(some == all);
        assert(actions_until_failure(f, ctx) =~= whole);
        assert(whole.take(whole.len() as int) =~= whole);
    } else {
        assert(actions_until_failure(f, ctx) == some);
        assert(some =~= whole.take(some.len() as int)) by {
            assert forall|i: int| 0 <= i < some.len() implies some[i] == whole[i] by {
                assert(some[i] == all.take(some.len() as int)[i]);
            }
        }
    }
}

spec fn stays_before(f: PlanFragment, ctx: ClusterContext) -> bool {
    let some = actions_until_failure(f, ctx);
    let all = all_actions(f, ctx);
    &&& sources_ok(f) ==> some == all
    &&& some.len() <= all.len()
    &&& some == all.take(some.len() as int)
}

proof fn lemma_all_before_failure(fs: Seq<PlanFragment>, ctx: ClusterContext, n: nat)
    requires
        n <= fs.len(),
        forall|i: int| 0 <= i < fs.len() ==> stays_before(#[trigger] fs[i], ctx),
    ensures
        (forall|j: int| 0 <= j < n ==> sources_ok(#[trigger] fs[j])) ==> all_until_failure(fs, ctx, n) == actions_of_all(
            fs,
            ctx,
            n,
        ),
        all_until_failure(fs, ctx, n).len() <= actions_of_all(fs, ctx, n).len(),
        all_until_failure(fs, ctx, n) == actions_of_all(fs, ctx, n).take(all_until_failure(fs, ctx, n).len() as int),
    decreases n,
{
    if n > 0 {
        lemma_all_before_failure(fs, ctx, (n - 1) as nat);
        assert(stays_before(fs[n - 1], ctx));
        let some_before = all_until_failure(fs, ctx, (n - 1) as nat);
        let all_before = actions_of_all(fs, ctx, (n - 1) as nat);
        let last = actions_until_failure(fs[n - 1], ctx);
        let all_last = all_actions(fs[n - 1], ctx);
        let some = all_until_failure(fs, ctx, n);
        let all = actions_of_all(fs, ctx, n);
        assert(all == all_before + all_last);
        if forall|j: int| 0 <= j < n - 1 ==> sources_ok(#[trigger] fs[j]) {
            assert(some == some_before + last);
            assert(some_before == all_before);
            assert(some =~= all.take(some.len() as int)) by {
                assert forall|i: int| 0 <= i < some.len() implies some[i] == all[i] by {
                    if i >= some_before.len() {
                        assert(last[i - some_before.len()] == all_last.take(last.len() as int)[i - some_before.len()]);
                    }
                }
            }
        } else {
            assert(some == some_before);
            assert(some =~= all.take(some.len() as int)) by {
                assert forall|i: int| 0 <= i < some.len() implies some[i] == all[i] by {
                    assert(some_before[i] == all_before.take(some_before.len() as int)[i]);
                }
            }
        }
    } else {
        assert(all_until_failure(fs, ctx, 0) =~= actions_of_all(fs, ctx, 0).take(0));
    }
}

/// A plan of fragments can be spread where each source fragment reads exactly one source, however
/// deep it stands.
pub proof fn every_source_fragment_reads_one_source(f: PlanFragment, j: int)
    requires
        sources_ok(f),
        0 <= j < f.source_fragments@.len(),
    ensures
        f.fragment_type is Source ==> plan_sources(f.plan@).len() == 1,
        sources_ok(f.source_fragments@[j]),
{
    assert(all_sources_ok(f.source_fragments@));
}

/// A plan reads what its operators read: a scan and a copy from a stage read their source, and any
/// other operator what its inputs read, one input after the other.
pub proof fn a_plan_reads_what_its_operators_read(p: PlanView)
    ensures
        match p {
            PlanView::TableScan { plan_id: _, source } => plan_sources(p) == seq![source],
            PlanView::CopyFromStage { plan_id: _, source } => plan_sources(p) == seq![source],
            PlanView::CopyFromQuery { plan_id: _, input } => plan_sources(p) == plan_sources(*input),
            PlanView::ExchangeSink { plan_id: _, input } => plan_sources(p) == plan_sources(*input),
            PlanView::ReplaceInto { plan_id: _, input, need_insert: _, segments: _ } => plan_sources(p) == plan_sources(
                *input,
            ),
            PlanView::Deduplicate { plan_id: _, input, need_insert: _ } => plan_sources(p) == plan_sources(*input),
            PlanView::DeletePartial { plan_id: _, parts: _ } => plan_sources(p).len() == 0,
            PlanView::Operator { plan_id: _, inputs } => plan_sources(p) == in_turn(
                inputs.map_values(|q: PlanView| plan_sources(q)),
            ),
        },
{
    reveal_with_fuel(plan_sources, 2);
    if let PlanView::Operator { plan_id: _, inputs } = p {
        lemma_sources_in_turn(inputs, inputs.len());
        assert(inputs.take(inputs.len() as int) =~= inputs);
    }
}

proof fn lemma_sources_in_turn(ps: Seq<PlanView>, n: nat)
    requires
        n <= ps.len(),
    ensures
        all_sources(ps, n) == in_turn(ps.take(n as int).map_values(|q: PlanView| plan_sources(q))),
    decreases n,
{
    let of = |q: PlanView| plan_sources(q);
    if n > 0 {
        lemma_sources_in_turn(ps, (n - 1) as nat);
        assert(ps.take(n as int).map_values(of) =~= ps.take(n - 1).map_values(of).push(of(ps[n - 1])));
        lemma_in_turn_push(ps.take(n - 1).map_values(of), of(ps[n - 1]));
    } else {
        assert(ps.take(0).map_values(of) =~= Seq::<Seq<SourceView>>::empty());
    }
}

/// A replacement changes what it is for, wherever it stands in a plan, and nothing else: the other
/// operators keep their ids and what they hold.
pub proof fn a_replacement_changes_what_it_is_for(p: PlanView, r: ReplacerView)
    ensures
        ({
            let now = replaced(p, r);
            match p {
                PlanView::TableScan { plan_id, source } => now matches PlanView::TableScan { plan_id: id, source: s }
                    && id == plan_id && s == match r {
                    ReplacerView::ReplaceReadSource { source: other } => other,
                    _ => source,
                },
                PlanView::CopyFromStage { plan_id, source } => now matches PlanView::CopyFromStage {
                    plan_id: id,
                    source: s,
                } && id == plan_id && s == match r {
                    ReplacerView::ReplaceReadSource { source: other } => other,
                    _ => source,
                },
                PlanView::CopyFromQuery { plan_id, input } => now matches PlanView::CopyFromQuery {
                    plan_id: id,
                    input: i,
                } && id == plan_id && *i == replaced(*input, r),
                PlanView::ExchangeSink { plan_id, input } => now matches PlanView::ExchangeSink { plan_id: id, input: i }
                    && id == plan_id && *i == replaced(*input, r),
                PlanView::DeletePartial { plan_id, parts } => now matches PlanView::DeletePartial {
                    plan_id: id,
                    parts: q,
                } && id == plan_id && q == match r {
                    ReplacerView::ReplaceDeletePartial { partitions } => partitions,
                    _ => parts,
                },
                PlanView::ReplaceInto { plan_id, input, need_insert, segments } => now matches PlanView::ReplaceInto {
                    plan_id: id,
                    input: i,
                    need_insert: n,
                    segments: q,
                } && id == plan_id && *i == replaced(*input, r) && match r {
                    ReplacerView::ReplaceReplaceInto { segments: s, need_insert: m } => q == s && n == m,
                    _ => q == segments && n == need_insert,
                },
                PlanView::Deduplicate { plan_id, input, need_insert } => now matches PlanView::Deduplicate {
                    plan_id: id,
                    input: i,
                    need_insert: n,
                } && id == plan_id && *i == replaced(*input, r) && match r {
                    ReplacerView::ReplaceReplaceInto { segments: _, need_insert: m } => n == m,
                    _ => n == need_insert,
                },
                PlanView::Operator { plan_id, inputs } => now matches PlanView::Operator { plan_id: id, inputs: q }
                    && id == plan_id && q.len() == inputs.len() && forall|i: int|
                    0 <= i < inputs.len() ==> #[trigger] q[i] == replaced(inputs[i], r),
            }
        }),
{
    reveal_with_fuel(replaced, 2);
}

}
