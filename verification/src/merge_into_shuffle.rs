//! How the ports of a merge-into pipeline are put together.

use vstd::arithmetic::div_mod::lemma_fundamental_div_mod;
use vstd::arithmetic::div_mod::lemma_fundamental_div_mod_converse;
use vstd::prelude::*;

verus! {

#[derive(Clone, Copy, Debug, PartialEq, Eq, Structural)]
pub enum MergeIntoOp {
    StandaloneFullOperation,
    StandaloneMatchedOnly,
    StandaloneInsertOnly,
    DistributedFullOperation,
    DistributedMatchedOnly,
    DistributedInsertOnly,
}

/// What is done to the outputs of a pipeline.
#[derive(Debug)]
pub enum PipelineStep {
    /// The outputs of each list become one.
    ResizePartialOne(Vec<Vec<usize>>),
    /// Output `i` goes to place `rules[i]`.
    ReorderInputs(Vec<usize>),
    /// All outputs become that many.
    TryResize(usize),
}

pub enum StepView {
    ResizePartialOne(Seq<Seq<usize>>),
    ReorderInputs(Seq<usize>),
    TryResize(usize),
}

pub open spec fn ranges_view(v: Seq<Vec<usize>>) -> Seq<Seq<usize>> {
    v.map_values(|r: Vec<usize>| r@)
}

impl View for PipelineStep {
    type V = StepView;

    open spec fn view(&self) -> StepView {
        match *self {
            PipelineStep::ResizePartialOne(ranges) => StepView::ResizePartialOne(ranges_view(ranges@)),
            PipelineStep::ReorderInputs(rules) => StepView::ReorderInputs(rules@),
            PipelineStep::TryResize(n) => StepView::TryResize(n),
        }
    }
}

pub open spec fn steps_view(v: Seq<PipelineStep>) -> Seq<StepView> {
    v.map_values(|s: PipelineStep| s@)
}

/// Of `groups` groups of `width` ports each, the first ports of all groups come first, then the
/// second ports, and so on.
pub open spec fn shuffle_rules(groups: nat, width: nat) -> Seq<usize> {
    Seq::new(groups * width, |j: int| (j / (width as int) + (j % (width as int)) * groups) as usize)
}

/// The outputs from `start` on, `n` of them.
pub open spec fn outputs_from(start: nat, n: nat) -> Seq<usize> {
    Seq::new(n, |i: int| (start + i) as usize)
}

/// The row-id ports become one, the data ports stay, and with three kinds of ports those of the
/// last kind become one too.
pub open spec fn row_id_ranges(output_len: nat, step: nat) -> Seq<Seq<usize>> {
    let n = output_len / step;
    let singles = Seq::new(n, |i: int| seq![(i + n) as usize]);
    if step == 3 {
        seq![outputs_from(0, n)] + singles + seq![outputs_from(n * 2, n)]
    } else {
        seq![outputs_from(0, n)] + singles
    }
}

/// Of each three ports the first stays and the other two become one.
pub open spec fn data_ranges(output_len: nat) -> Seq<Seq<usize>> {
    Seq::new(
        output_len / 3 * 2,
        |i: int|
            if i % 2 == 0 {
                seq![(i / 2 * 3) as usize]
            } else {
                seq![(i / 2 * 3 + 1) as usize, (i / 2 * 3 + 2) as usize]
            },
    )
}

/// How the outputs of a pipeline are shuffled.
pub open spec fn shuffle_steps(op: MergeIntoOp, output_len: nat) -> Seq<StepView> {
    match op {
        MergeIntoOp::StandaloneFullOperation => {
            let merged = output_len / 3 * 2;
            seq![
                StepView::ResizePartialOne(data_ranges(output_len)),
                StepView::ReorderInputs(shuffle_rules(merged / 2, 2)),
                StepView::ResizePartialOne(row_id_ranges(merged, 2)),
            ]
        },
        MergeIntoOp::StandaloneMatchedOnly | MergeIntoOp::DistributedMatchedOnly => seq![
            StepView::ReorderInputs(shuffle_rules(output_len / 2, 2)),
            StepView::ResizePartialOne(row_id_ranges(output_len, 2)),
        ],
        MergeIntoOp::StandaloneInsertOnly => Seq::empty(),
        MergeIntoOp::DistributedFullOperation => seq![
            StepView::ReorderInputs(shuffle_rules(output_len / 3, 3)),
            StepView::ResizePartialOne(row_id_ranges(output_len, 3)),
        ],
        MergeIntoOp::DistributedInsertOnly => seq![StepView::TryResize(1)],
    }
}

proof fn lemma_rule_bound(groups: int, width: int, j: int)
    requires
        0 < width,
        0 <= groups,
        0 <= j < groups * width,
    ensures
        0 <= j / width < groups,
        0 <= j % width < width,
        0 <= (j % width) * groups,
        j / width + (j % width) * groups < groups * width,
        groups > 0,
{
    lemma_fundamental_div_mod(j, width);
    let q = j / width;
    let m = j % width;
    assert(0 <= m < width);
    assert(0 <= q < groups) by (nonlinear_arith)
        requires
            j == width * q + m,
            0 <= m < width,
            0 <= j < groups * width,
    ;
    assert(0 <= m * groups && q + m * groups < groups * width) by (nonlinear_arith)
        requires
            0 <= m < width,
            0 <= q < groups,
    ;
}

/// The rules by which groups of ports are shuffled.
fn rules_of(groups: usize, width: usize) -> (r: Vec<usize>)
    requires
        width > 0,
        groups * width <= usize::MAX,
    ensures
        r@ == shuffle_rules(groups as nat, width as nat),
{
    let mut rules: Vec<usize> = Vec::new();
    let total: usize = groups * width;
    let mut j: usize = 0;
    while j < total
        invariant
            j <= total,
            width > 0,
            total == groups * width,
            rules@ == shuffle_rules(groups as nat, width as nat).take(j as int),
        decreases total - j,
    {
        proof {
            lemma_rule_bound(groups as int, width as int, j as int);
        }
        let offset: usize = (j % width) * groups;
        rules.push(j / width + offset);
        assert(rules@ =~= shuffle_rules(groups as nat, width as nat).take(j + 1));
        j += 1;
    }
    assert(rules@ =~= shuffle_rules(groups as nat, width as nat));
    rules
}

fn range_from(start: usize, n: usize) -> (r: Vec<usize>)
    requires
        start + n <= usize::MAX,
    ensures
        r@ == outputs_from(start as nat, n as nat),
{
    let mut r: Vec<usize> = Vec::new();
    let mut i: usize = 0;
    while i < n
        invariant
            i <= n,
            start + n <= usize::MAX,
            r@ == outputs_from(start as nat, i as nat),
        decreases n - i,
    {
        r.push(start + i);
        assert(r@ =~= outputs_from(start as nat, (i + 1) as nat));
        i += 1;
    }
    r
}

/// How the row-id ports become one.
pub fn resize_row_id(output_len: usize, step: usize) -> (r: PipelineStep)
    requires
        step == 2 || step == 3,
    ensures
        r@ == StepView::ResizePartialOne(row_id_ranges(output_len as nat, step as nat)),
{
    let resize_len: usize = output_len / step;
    let ghost n = resize_len as nat;
    assert(n == output_len as nat / step as nat);
    assert(n * step <= output_len) by (nonlinear_arith)
        requires
            n == output_len as nat / step as nat,
            step == 2 || step == 3,
    ;
    let mut ranges: Vec<Vec<usize>> = Vec::new();
    ranges.push(range_from(0, resize_len));
    let ghost first = seq![outputs_from(0, n)];
    let ghost singles = Seq::new(n, |i: int| seq![(i + n) as usize]);
    let mut i: usize = 0;
    assert(ranges_view(ranges@) =~= first + singles.take(0));
    while i < resize_len
        invariant
            i <= resize_len,
            n == resize_len,
            n * 2 <= usize::MAX,
            first == seq![outputs_from(0, n)],
            singles == Seq::new(n, |i: int| seq![(i + n) as usize]),
            ranges_view(ranges@) == first + singles.take(i as int),
        decreases resize_len - i,
    {
        let ghost before = ranges@;
        let mut single: Vec<usize> = Vec::new();
        single.push(i + resize_len);
        assert(single@ =~= seq![(i + n) as usize]);
        ranges.push(single);
        proof {
            assert(ranges_view(ranges@) =~= ranges_view(before).push(single@));
            assert(singles.take(i + 1) =~= singles.take(i as int).push(singles[i as int]));
            assert(ranges_view(ranges@) =~= first + singles.take(i + 1));
        }
        i += 1;
    }
    assert(singles.take(i as int) =~= singles);
    if step == 3 {
        let ghost before = ranges@;
        let last = range_from(resize_len * 2, resize_len);
        ranges.push(last);
        assert(ranges_view(ranges@) =~= ranges_view(before).push(last@));
        assert(ranges_view(ranges@) =~= row_id_ranges(output_len as nat, 3));
    }
    PipelineStep::ResizePartialOne(ranges)
}

fn merge_data_ports(output_len: usize) -> (r: Vec<Vec<usize>>)
    requires
        output_len % 3 == 0,
    ensures
        ranges_view(r@) == data_ranges(output_len as nat),
{
    let mut ranges: Vec<Vec<usize>> = Vec::new();
    let mut i: usize = 0;
    let groups: usize = output_len / 3;
    assert(ranges_view(ranges@) =~= data_ranges(output_len as nat).take(0));
    while i < groups
        invariant
            i <= groups,
            groups == output_len / 3,
            ranges_view(ranges@) == data_ranges(output_len as nat).take(i * 2),
        decreases groups - i,
    {
        let ghost before = ranges@;
        let idx: usize = i * 3;
        let mut row_id: Vec<usize> = Vec::new();
        row_id.push(idx);
        let mut data: Vec<usize> = Vec::new();
        data.push(idx + 1);
        data.push(idx + 2);
        proof {
            let all = data_ranges(output_len as nat);
            assert(all[i * 2] =~= row_id@);
            assert(all[i * 2 + 1] =~= data@);
        }
        ranges.push(row_id);
        ranges.push(data);
        assert(ranges_view(ranges@) =~= ranges_view(before).push(row_id@).push(data@));
        assert(ranges_view(ranges@) =~= data_ranges(output_len as nat).take((i + 1) * 2));
        i += 1;
    }
    assert(data_ranges(output_len as nat).take(i * 2) =~= data_ranges(output_len as nat));
    ranges
}

/// Shuffle outputs and resize row_id: how the outputs of a pipeline are put together.
///
/// The ports come in groups: the row ids that are matched, the data that is matched, and what is
/// not matched, as far as the operation has them. They are put kind by kind; then the row-id
/// ports become one, and in a cluster so do those of what is not matched.
pub fn build_merge_into_shuffle(op: MergeIntoOp, output_len: usize) -> (r: Vec<PipelineStep>)
    requires
        op == MergeIntoOp::StandaloneFullOperation ==> output_len % 3 == 0,
    ensures
        steps_view(r@) == shuffle_steps(op, output_len as nat),
{
    let mut steps: Vec<PipelineStep> = Vec::new();
    match op {
        MergeIntoOp::StandaloneFullOperation => {
            // merge matched update ports and not matched ports ===> data ports
            steps.push(PipelineStep::ResizePartialOne(merge_data_ports(output_len)));
            let merged: usize = output_len / 3 * 2;
            steps.push(PipelineStep::ReorderInputs(rules_of(merged / 2, 2)));
            steps.push(resize_row_id(merged, 2));
        },
        MergeIntoOp::StandaloneMatchedOnly => {
            steps.push(PipelineStep::ReorderInputs(rules_of(output_len / 2, 2)));
            steps.push(resize_row_id(output_len, 2));
        },
        MergeIntoOp::StandaloneInsertOnly => {},
        MergeIntoOp::DistributedFullOperation => {
            steps.push(PipelineStep::ReorderInputs(rules_of(output_len / 3, 3)));
            steps.push(resize_row_id(output_len, 3));
        },
        MergeIntoOp::DistributedMatchedOnly => {
            steps.push(PipelineStep::ReorderInputs(rules_of(output_len / 2, 2)));
            steps.push(resize_row_id(output_len, 2));
        },
        MergeIntoOp::DistributedInsertOnly => {
            // insert-only, there are only row_number ports/unmatched ports
            steps.push(PipelineStep::TryResize(1));
        },
    }
    assert(steps_view(steps@) =~= shuffle_steps(op, output_len as nat));
    steps
}

/// A shuffle gives every output a place of its own: port `k` of group `g` goes to place
/// `k * groups + g`, no two outputs go to one place, and no place is left over.
pub proof fn shuffle_is_a_permutation(groups: nat, width: nat)
    requires
        width > 0,
        groups * width <= usize::MAX,
    ensures
        forall|g: int, k: int|
            0 <= g < groups && 0 <= k < width ==> #[trigger] shuffle_rules(groups, width)[g * width + k] == k * groups
                + g,
        forall|i: int, j: int|
            #![trigger shuffle_rules(groups, width)[i], shuffle_rules(groups, width)[j]]
            0 <= i < j < groups * width ==> shuffle_rules(groups, width)[i] != shuffle_rules(groups, width)[j],
        forall|i: int|
            0 <= i < groups * width ==> (#[trigger] shuffle_rules(groups, width)[i]) < groups * width,
{
    let rules = shuffle_rules(groups, width);
    let w = width as int;
    let n = groups as int;
    assert forall|g: int, k: int| 0 <= g < groups && 0 <= k < width implies #[trigger] rules[g * width + k] == k
        * groups + g by {
        let j = g * w + k;
        assert(0 <= j < n * w) by (nonlinear_arith)
            requires
                j == g * w + k,
                0 <= g < n,
                0 <= k < w,
        ;
        lemma_fundamental_div_mod_converse(j, w, g, k);
        lemma_rule_bound(n, w, j);
    }
    assert forall|i: int, j: int| #![trigger rules[i], rules[j]] 0 <= i < j < groups * width implies rules[i]
        != rules[j] by {
        lemma_rule_bound(n, w, i);
        lemma_rule_bound(n, w, j);
        lemma_fundamental_div_mod(i, w);
        lemma_fundamental_div_mod(j, w);
        let a = i / w + (i % w) * n;
        let b = j / w + (j % w) * n;
        lemma_fundamental_div_mod_converse(a, n, i % w, i / w);
        lemma_fundamental_div_mod_converse(b, n, j % w, j / w);
        if a == b {
            assert(i % w == j % w && i / w == j / w);
        }
    }
    assert forall|i: int| 0 <= i < groups * width implies (#[trigger] rules[i]) < groups * width by {
        lemma_rule_bound(n, w, i);
    }
}

/// With as many outputs as the kinds of ports divide, each output is in exactly one of the lists
/// that become one output.
pub proof fn every_output_is_resized_once(groups: nat, step: nat, output: usize)
    requires
        step == 2 || step == 3,
        groups * step <= usize::MAX,
        output < groups * step,
    ensures
        ({
            let ranges = row_id_ranges(groups * step, step);
            let own = if output < groups {
                0
            } else if output < groups * 2 {
                output - groups + 1
            } else {
                groups as int + 1
            };
            forall|i: int|
                0 <= i < ranges.len() ==> ((#[trigger] ranges[i]).contains(output) <==> i == own)
        }),
{
    let ranges = row_id_ranges(groups * step, step);
    let n = groups;
    assert((groups * step) / step == n) by (nonlinear_arith)
        requires
            n == groups,
            step == 2 || step == 3,
    ;
    let own = if output < groups {
        0
    } else if output < groups * 2 {
        output - groups + 1
    } else {
        groups as int + 1
    };
    assert forall|i: int| 0 <= i < ranges.len() implies ((#[trigger] ranges[i]).contains(output) <==> i == own) by {
        if i == 0 {
            assert(ranges[i] == outputs_from(0, n));
            if output < n {
                assert(ranges[i][output as int] == output);
            }
        } else if i <= n {
            assert(ranges[i] == seq![(i - 1 + n) as usize]);
            assert(ranges[i][0] == (i - 1 + n) as usize);
        } else {
            assert(ranges[i] == outputs_from(n * 2, n));
            if output >= n * 2 {
                assert(ranges[i][output - n * 2] == output);
            }
        }
    }
}

/// Of the three outputs of each merge the first stays alone, and the other two become one.
pub proof fn two_of_three_outputs_become_one(groups: nat, g: int)
    requires
        groups * 3 <= usize::MAX,
        0 <= g < groups,
    ensures
        ({
            let ranges = data_ranges(groups * 3);
            &&& ranges.len() == groups * 2
            &&& ranges[g * 2] == seq![(g * 3) as usize]
            &&& ranges[g * 2 + 1] == seq![(g * 3 + 1) as usize, (g * 3 + 2) as usize]
        }),
{
    assert((groups * 3) / 3 == groups);
    assert((g * 2) / 2 == g && (g * 2) % 2 == 0);
    assert((g * 2 + 1) / 2 == g && (g * 2 + 1) % 2 == 1);
}

/// Which steps follow a merge: an insert alone needs none on one node, and one output on a cluster.
/// Otherwise the outputs are brought into the order of their kinds, of which there are three where
/// rows are inserted on a cluster and two else, and then resized. On one node the two outputs of
/// data become one before.
pub proof fn the_steps_that_follow_a_merge(output_len: nat)
    ensures
        shuffle_steps(MergeIntoOp::StandaloneInsertOnly, output_len).len() == 0,
        shuffle_steps(MergeIntoOp::DistributedInsertOnly, output_len) == seq![StepView::TryResize(1)],
        shuffle_steps(MergeIntoOp::StandaloneMatchedOnly, output_len) == seq![
            StepView::ReorderInputs(shuffle_rules(output_len / 2, 2)),
            StepView::ResizePartialOne(row_id_ranges(output_len, 2)),
        ],
        shuffle_steps(MergeIntoOp::DistributedMatchedOnly, output_len) == shuffle_steps(
            MergeIntoOp::StandaloneMatchedOnly,
            output_len,
        ),
        shuffle_steps(MergeIntoOp::DistributedFullOperation, output_len) == seq![
            StepView::ReorderInputs(shuffle_rules(output_len / 3, 3)),
            StepView::ResizePartialOne(row_id_ranges(output_len, 3)),
        ],
        shuffle_steps(MergeIntoOp::StandaloneFullOperation, output_len) == seq![
            StepView::ResizePartialOne(data_ranges(output_len)),
        ] + shuffle_steps(MergeIntoOp::StandaloneMatchedOnly, output_len / 3 * 2),
{
    let merged = output_len / 3 * 2;
    assert(shuffle_steps(MergeIntoOp::StandaloneFullOperation, output_len) =~= seq![
        StepView::ResizePartialOne(data_ranges(output_len)),
    ] + shuffle_steps(MergeIntoOp::StandaloneMatchedOnly, merged));
}

}
