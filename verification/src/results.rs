//! Outcomes of runs and judge rounds, and their aggregation once every unit
//! has settled: error count, score sequences, averages, merged tool metrics.

use crate::metrics::{lemma_distinct_totals_fit, total, ToolMetrics};
use vstd::prelude::*;

verus! {

/// A score with the analysis that the judge gave for it.
#[derive(Clone, Debug)]
pub struct Judgement {
    pub score: u32,
    pub analysis: String,
}

/// What one judge invocation reported: a judgement of the diff, and one of
/// the thread where the thread was judged. A round without a thread
/// judgement is complete; it only stays out of the thread-score aggregation.
#[derive(Clone, Debug)]
pub struct JudgeOutput {
    pub diff: Judgement,
    pub thread: Option<Judgement>,
}

/// What one agent execution produced.
#[derive(Clone, Debug)]
pub struct RunOutput {
    pub tool_metrics: ToolMetrics,
    pub response_count: usize,
    pub input_tokens: u64,
    pub output_tokens: u64,
    pub diagnostics_before: usize,
    pub diagnostics_after: usize,
}

/// The outcome of one scheduled instance: the run failed, or it produced an
/// output and one outcome per judge round, in round order (`None` for a
/// round whose judge failed).
#[derive(Clone, Debug)]
pub enum RunOutcome {
    Failed,
    Completed { output: RunOutput, rounds: Vec<Option<JudgeOutput>> },
}

/// The sum and the number of the scores an average is taken over; the mean
/// is `sum / count`, and `count` is never zero.
#[derive(Clone, Debug)]
pub struct Mean {
    pub sum: u128,
    pub count: usize,
}

/// Everything the final report states about a whole evaluation.
#[derive(Clone, Debug)]
pub struct Summary {
    pub error_count: usize,
    pub diff_scores: Vec<u32>,
    pub thread_scores: Vec<u32>,
    pub average_diff: Option<Mean>,
    pub average_thread: Option<Mean>,
    pub tool_metrics: ToolMetrics,
}

/// The score one round contributes: its thread score when `thread` is set,
/// its diff score otherwise; nothing for a failed round.
pub open spec fn round_score(round: Option<JudgeOutput>, thread: bool) -> Option<u32> {
    match round {
        Some(judged) => if thread {
            match judged.thread {
                Some(judgement) => Some(judgement.score),
                None => None,
            }
        } else {
            Some(judged.diff.score)
        },
        None => None,
    }
}

/// The scores of a sequence of rounds, in round order.
pub open spec fn round_scores(rounds: Seq<Option<JudgeOutput>>, thread: bool) -> Seq<u32>
    decreases rounds.len(),
{
    if rounds.len() == 0 {
        Seq::empty()
    } else {
        match round_score(rounds.last(), thread) {
            Some(score) => round_scores(rounds.drop_last(), thread).push(score),
            None => round_scores(rounds.drop_last(), thread),
        }
    }
}

/// The scores of one instance; a failed run has none.
pub open spec fn outcome_scores(outcome: RunOutcome, thread: bool) -> Seq<u32> {
    match outcome {
        RunOutcome::Failed => Seq::empty(),
        RunOutcome::Completed { output, rounds } => round_scores(rounds@, thread),
    }
}

/// The scores of all instances, in submission order and round order.
pub open spec fn scores(results: Seq<RunOutcome>, thread: bool) -> Seq<u32>
    decreases results.len(),
{
    if results.len() == 0 {
        Seq::empty()
    } else {
        scores(results.drop_last(), thread) + outcome_scores(results.last(), thread)
    }
}

/// The number of instances whose run failed.
pub open spec fn failed_runs(results: Seq<RunOutcome>) -> nat
    decreases results.len(),
{
    if results.len() == 0 {
        0
    } else {
        failed_runs(results.drop_last()) + if results.last() is Failed {
            1nat
        } else {
            0nat
        }
    }
}

/// What one instance adds to the merged total of `name`; a failed run adds
/// nothing.
pub open spec fn run_total(outcome: RunOutcome, name: Seq<char>, failures: bool) -> nat {
    match outcome {
        RunOutcome::Failed => 0,
        RunOutcome::Completed { output, rounds } => total(
            output.tool_metrics.entries@,
            name,
            failures,
        ),
    }
}

/// The merged total of `name` over all successful runs.
pub open spec fn merged_total(results: Seq<RunOutcome>, name: Seq<char>, failures: bool) -> nat
    decreases results.len(),
{
    if results.len() == 0 {
        0
    } else {
        merged_total(results.drop_last(), name, failures) + run_total(
            results.last(),
            name,
            failures,
        )
    }
}

/// The sum of a sequence of scores.
pub open spec fn sum_scores(values: Seq<u32>) -> nat
    decreases values.len(),
{
    if values.len() == 0 {
        0
    } else {
        sum_scores(values.drop_last()) + values.last() as nat
    }
}

/// The average of a sequence of scores: none for the empty sequence.
pub open spec fn average_spec(values: Seq<u32>) -> Option<(nat, nat)> {
    if values.len() == 0 {
        None
    } else {
        Some((sum_scores(values), values.len()))
    }
}

/// The pair of sum and count that a `Mean` stands for.
pub open spec fn mean_view(mean: Option<Mean>) -> Option<(nat, nat)> {
    match mean {
        Some(m) => Some((m.sum as nat, m.count as nat)),
        None => None,
    }
}

proof fn lemma_sum_bound(values: Seq<u32>)
    ensures
        sum_scores(values) <= values.len() * 0xFFFF_FFFF,
    decreases values.len(),
{
    if values.len() > 0 {
        lemma_sum_bound(values.drop_last());
    }
}

/// The arithmetic mean of `values` as sum and count; no average for an empty
/// sequence.
pub fn average(values: &Vec<u32>) -> (mean: Option<Mean>)
    ensures
        mean_view(mean) == average_spec(values@),
        mean is None <==> values@.len() == 0,
{
    if values.len() == 0 {
        return None;
    }
    let mut sum: u128 = 0;
    let mut i: usize = 0;
    while i < values.len()
        invariant
            i <= values.len(),
            sum == sum_scores(values@.take(i as int)),
        decreases values.len() - i,
    {
        proof {
            lemma_sum_bound(values@.take(i as int));
            assert(values@.take(i + 1).drop_last() =~= values@.take(i as int));
        }
        sum = sum + values[i] as u128;
        i += 1;
    }
    proof {
        assert(values@.take(i as int) =~= values@);
    }
    Some(Mean { sum, count: values.len() })
}

/// Counts the instances whose run failed.
pub fn count_failed(results: &Vec<RunOutcome>) -> (count: usize)
    ensures
        count == failed_runs(results@),
{
    let mut count: usize = 0;
    let mut i: usize = 0;
    while i < results.len()
        invariant
            i <= results.len(),
            count == failed_runs(results@.take(i as int)),
            count <= i,
        decreases results.len() - i,
    {
        proof {
            assert(results@.take(i + 1).drop_last() =~= results@.take(i as int));
        }
        match &results[i] {
            RunOutcome::Failed => {
                count += 1;
            },
            RunOutcome::Completed { output, rounds } => {},
        }
        i += 1;
    }
    proof {
        assert(results@.take(i as int) =~= results@);
    }
    count
}

/// Collects the scores of all successful rounds, in submission order and
/// round order: thread scores when `thread` is set, diff scores otherwise.
pub fn collect_scores(results: &Vec<RunOutcome>, thread: bool) -> (out: Vec<u32>)
    ensures
        out@ == scores(results@, thread),
{
    let mut out: Vec<u32> = Vec::new();
    let mut i: usize = 0;
    while i < results.len()
        invariant
            i <= results.len(),
            out@ == scores(results@.take(i as int), thread),
        decreases results.len() - i,
    {
        proof {
            assert(results@.take(i + 1).drop_last() =~= results@.take(i as int));
        }
        match &results[i] {
            RunOutcome::Failed => {
                assert(out@ + Seq::<u32>::empty() =~= out@);
            },
            RunOutcome::Completed { output, rounds } => {
                let ghost base = out@;
                let mut j: usize = 0;
                assert(base + Seq::<u32>::empty() =~= base);
                while j < rounds.len()
                    invariant
                        j <= rounds.len(),
                        out@ == base + round_scores(rounds@.take(j as int), thread),
                    decreases rounds.len() - j,
                {
                    proof {
                        assert(rounds@.take(j + 1).drop_last() =~= rounds@.take(j as int));
                    }
                    let ghost inner = round_scores(rounds@.take(j as int), thread);
                    match &rounds[j] {
                        Some(judged) => {
                            if thread {
                                match &judged.thread {
                                    Some(judgement) => {
                                        out.push(judgement.score);
                                        assert((base + inner).push(judgement.score) =~= base
                                            + inner.push(judgement.score));
                                    },
                                    None => {},
                                }
                            } else {
                                out.push(judged.diff.score);
                                assert((base + inner).push(judged.diff.score) =~= base
                                    + inner.push(judged.diff.score));
                            }
                        },
                        None => {},
                    }
                    j += 1;
                }
                proof {
                    assert(rounds@.take(j as int) =~= rounds@);
                }
            },
        }
        i += 1;
    }
    proof {
        assert(results@.take(i as int) =~= results@);
    }
    out
}

/// A prefix of the results merges to no more than all of them.
pub proof fn lemma_merged_total_prefix(
    results: Seq<RunOutcome>,
    k: int,
    name: Seq<char>,
    failures: bool,
)
    requires
        0 <= k <= results.len(),
    ensures
        merged_total(results.take(k), name, failures) <= merged_total(results, name, failures),
    decreases results.len(),
{
    if k == results.len() {
        assert(results.take(k) =~= results);
    } else {
        assert(results.drop_last().take(k) =~= results.take(k));
        lemma_merged_total_prefix(results.drop_last(), k, name, failures);
    }
}

/// Taking one outcome out of the sequence takes exactly its share out of the
/// merged total.
pub proof fn lemma_merged_total_remove(
    results: Seq<RunOutcome>,
    k: int,
    name: Seq<char>,
    failures: bool,
)
    requires
        0 <= k < results.len(),
    ensures
        merged_total(results, name, failures) == merged_total(results.remove(k), name, failures)
            + run_total(results[k], name, failures),
    decreases results.len(),
{
    if k == results.len() - 1 {
        assert(results.remove(k) =~= results.drop_last());
    } else {
        assert(results.remove(k).drop_last() =~= results.drop_last().remove(k));
        assert(results.remove(k).last() == results.last());
        lemma_merged_total_remove(results.drop_last(), k, name, failures);
    }
}

/// Order independence of the merge: two sequences that hold the same
/// outcomes, in whatever order, merge to the same total for every tool name,
/// for uses and for failures alike.
pub proof fn lemma_merge_order_independent(
    first: Seq<RunOutcome>,
    second: Seq<RunOutcome>,
    name: Seq<char>,
    failures: bool,
)
    requires
        first.to_multiset() == second.to_multiset(),
    ensures
        merged_total(first, name, failures) == merged_total(second, name, failures),
    decreases first.len(),
{
    first.to_multiset_ensures();
    second.to_multiset_ensures();
    if first.len() == 0 {
        assert(second.len() == 0);
    } else {
        let last = first.last();
        assert(first.contains(last));
        assert(first.to_multiset().count(last) > 0);
        assert(second.to_multiset().count(last) > 0);
        assert(second.contains(last));
        let k = choose|k: int| 0 <= k < second.len() && second[k] == last;
        assert(first.drop_last() =~= first.remove(first.len() - 1));
        assert(first.drop_last().to_multiset() =~= second.remove(k).to_multiset());
        lemma_merge_order_independent(first.drop_last(), second.remove(k), name, failures);
        lemma_merged_total_remove(second, k, name, failures);
    }
}

/// Order independence of the final value: two accumulators, each holding
/// the merge of the same outcomes in its own order, hold the same counters
/// for every tool.
pub proof fn lemma_merged_metrics_agree(
    first: Seq<RunOutcome>,
    second: Seq<RunOutcome>,
    merged_first: ToolMetrics,
    merged_second: ToolMetrics,
)
    requires
        first.to_multiset() == second.to_multiset(),
        forall|n: Seq<char>, f: bool| #[trigger]
            total(merged_first.entries@, n, f) == merged_total(first, n, f),
        forall|n: Seq<char>, f: bool| #[trigger]
            total(merged_second.entries@, n, f) == merged_total(second, n, f),
    ensures
        forall|n: Seq<char>| #[trigger] merged_first.uses(n) == merged_second.uses(n),
        forall|n: Seq<char>| #[trigger] merged_first.failures(n) == merged_second.failures(n),
{
    assert forall|n: Seq<char>| #[trigger] merged_first.uses(n) == merged_second.uses(n) by {
        lemma_merge_order_independent(first, second, n, false);
    }
    assert forall|n: Seq<char>| #[trigger]
        merged_first.failures(n) == merged_second.failures(n) by {
        lemma_merge_order_independent(first, second, n, true);
    }
}

/// A round that reports a thread score also reports a diff score, so there
/// are never more thread scores than diff scores.
pub proof fn lemma_round_thread_scores_within_diff_scores(rounds: Seq<Option<JudgeOutput>>)
    ensures
        round_scores(rounds, true).len() <= round_scores(rounds, false).len(),
    decreases rounds.len(),
{
    if rounds.len() > 0 {
        lemma_round_thread_scores_within_diff_scores(rounds.drop_last());
    }
}

/// Over a whole evaluation there are never more thread scores than diff
/// scores: a thread average exists only where a diff average does.
pub proof fn lemma_thread_scores_within_diff_scores(results: Seq<RunOutcome>)
    ensures
        scores(results, true).len() <= scores(results, false).len(),
    decreases results.len(),
{
    if results.len() > 0 {
        lemma_thread_scores_within_diff_scores(results.drop_last());
        match results.last() {
            RunOutcome::Failed => {},
            RunOutcome::Completed { output, rounds } => {
                lemma_round_thread_scores_within_diff_scores(rounds@);
            },
        }
    }
}

/// No round of this outcome succeeded: its run failed, or every judge round
/// did.
pub open spec fn no_successful_round(outcome: RunOutcome) -> bool {
    match outcome {
        RunOutcome::Failed => true,
        RunOutcome::Completed { output, rounds } => forall|j: int|
            0 <= j < rounds@.len() ==> (#[trigger] rounds@[j]) is None,
    }
}

/// Rounds that all failed give no score.
pub proof fn lemma_failed_rounds_score_nothing(rounds: Seq<Option<JudgeOutput>>, thread: bool)
    requires
        forall|j: int| 0 <= j < rounds.len() ==> (#[trigger] rounds[j]) is None,
    ensures
        round_scores(rounds, thread).len() == 0,
    decreases rounds.len(),
{
    if rounds.len() > 0 {
        assert(rounds.last() is None);
        assert forall|j: int| 0 <= j < rounds.drop_last().len() implies (
        #[trigger] rounds.drop_last()[j]) is None by {
            assert(rounds.drop_last()[j] == rounds[j]);
        }
        lemma_failed_rounds_score_nothing(rounds.drop_last(), thread);
    }
}

/// With no successful round across all instances there is no score and so
/// no average.
pub proof fn lemma_no_success_no_average(results: Seq<RunOutcome>, thread: bool)
    requires
        forall|i: int| 0 <= i < results.len() ==> no_successful_round(#[trigger] results[i]),
    ensures
        scores(results, thread).len() == 0,
        average_spec(scores(results, thread)) is None,
    decreases results.len(),
{
    if results.len() > 0 {
        assert(no_successful_round(results.last()));
        assert forall|i: int| 0 <= i < results.drop_last().len() implies no_successful_round(
            #[trigger] results.drop_last()[i],
        ) by {
            assert(results.drop_last()[i] == results[i]);
        }
        lemma_no_success_no_average(results.drop_last(), thread);
        match results.last() {
            RunOutcome::Failed => {},
            RunOutcome::Completed { output, rounds } => {
                lemma_failed_rounds_score_nothing(rounds@, thread);
            },
        }
    }
}

/// Folds the tool metrics of every successful run into one accumulator.
pub fn merge_successful(results: &Vec<RunOutcome>) -> (merged: ToolMetrics)
    requires
        forall|n: Seq<char>, f: bool| #[trigger] merged_total(results@, n, f) <= u32::MAX,
    ensures
        merged.wf(),
        forall|n: Seq<char>, f: bool| #[trigger]
            total(merged.entries@, n, f) == merged_total(results@, n, f),
{
    let mut merged = ToolMetrics::new();
    let mut i: usize = 0;
    while i < results.len()
        invariant
            i <= results.len(),
            merged.wf(),
            forall|n: Seq<char>, f: bool| #[trigger] merged_total(results@, n, f) <= u32::MAX,
            forall|n: Seq<char>, f: bool| #[trigger]
                total(merged.entries@, n, f) == merged_total(results@.take(i as int), n, f),
        decreases results.len() - i,
    {
        let ghost next = results@.take(i + 1);
        proof {
            assert(next.drop_last() =~= results@.take(i as int));
            assert(next.last() == results@[i as int]);
        }
        match &results[i] {
            RunOutcome::Failed => {},
            RunOutcome::Completed { output, rounds } => {
                proof {
                    assert forall|n: Seq<char>, f: bool|
                        total(merged.entries@, n, f) + #[trigger] total(
                            output.tool_metrics.entries@,
                            n,
                            f,
                        ) <= u32::MAX by {
                        lemma_merged_total_prefix(results@, i + 1, n, f);
                        assert(merged_total(results@, n, f) <= u32::MAX);
                        assert(total(merged.entries@, n, f) == merged_total(
                            results@.take(i as int),
                            n,
                            f,
                        ));
                    }
                }
                merged.merge(&output.tool_metrics);
            },
        }
        proof {
            assert forall|n: Seq<char>, f: bool| #[trigger]
                total(merged.entries@, n, f) == merged_total(next, n, f) by {
                assert(merged_total(next, n, f) == merged_total(results@.take(i as int), n, f)
                    + run_total(results@[i as int], n, f));
            }
        }
        i += 1;
    }
    proof {
        assert(results@.take(i as int) =~= results@);
    }
    merged
}

/// Whether the merged counters of all successful runs fit the counter's
/// type.
pub open spec fn totals_fit(results: Seq<RunOutcome>) -> bool {
    forall|n: Seq<char>, f: bool| #[trigger] merged_total(results, n, f) <= u32::MAX
}

/// Folds the tool metrics of every successful run into one accumulator,
/// unless a merged counter would not fit its type.
pub fn try_merge_successful(results: &Vec<RunOutcome>) -> (merged: Option<ToolMetrics>)
    ensures
        merged is Some <==> totals_fit(results@),
        merged is Some ==> merged->Some_0.wf() && forall|n: Seq<char>, f: bool| #[trigger]
            total(merged->Some_0.entries@, n, f) == merged_total(results@, n, f),
{
    let mut merged = ToolMetrics::new();
    let mut i: usize = 0;
    while i < results.len()
        invariant
            i <= results.len(),
            merged.wf(),
            forall|n: Seq<char>, f: bool| #[trigger]
                total(merged.entries@, n, f) == merged_total(results@.take(i as int), n, f),
        decreases results.len() - i,
    {
        let ghost next = results@.take(i + 1);
        let ghost before = merged.entries@;
        proof {
            assert(next.drop_last() =~= results@.take(i as int));
            assert(next.last() == results@[i as int]);
        }
        match &results[i] {
            RunOutcome::Failed => {},
            RunOutcome::Completed { output, rounds } => {
                let fits = merged.try_merge(&output.tool_metrics);
                if !fits {
                    proof {
                        let (n, f) = choose|n: Seq<char>, f: bool|
                            total(before, n, f) + #[trigger] total(
                                output.tool_metrics.entries@,
                                n,
                                f,
                            ) > u32::MAX;
                        assert(total(before, n, f) == merged_total(results@.take(i as int), n, f));
                        assert(merged_total(next, n, f) == merged_total(
                            results@.take(i as int),
                            n,
                            f,
                        ) + run_total(results@[i as int], n, f));
                        lemma_merged_total_prefix(results@, i + 1, n, f);
                        assert(merged_total(results@, n, f) > u32::MAX);
                    }
                    return None;
                }
            },
        }
        proof {
            assert forall|n: Seq<char>, f: bool| #[trigger]
                total(merged.entries@, n, f) == merged_total(next, n, f) by {
                assert(total(before, n, f) == merged_total(results@.take(i as int), n, f));
                assert(merged_total(next, n, f) == merged_total(results@.take(i as int), n, f)
                    + run_total(results@[i as int], n, f));
            }
        }
        i += 1;
    }
    proof {
        assert(results@.take(i as int) =~= results@);
        assert forall|n: Seq<char>, f: bool| #[trigger]
            merged_total(results@, n, f) <= u32::MAX by {
            lemma_distinct_totals_fit(merged.entries@, n, f);
            assert(total(merged.entries@, n, f) == merged_total(results@, n, f));
        }
    }
    Some(merged)
}

/// Aggregates a whole evaluation after every unit has settled, unless a
/// merged tool counter would not fit its type.
pub fn try_summarize(results: &Vec<RunOutcome>) -> (summary: Option<Summary>)
    ensures
        summary is Some <==> totals_fit(results@),
        summary is Some ==> summarizes(summary->Some_0, results@),
{
    match try_merge_successful(results) {
        None => None,
        Some(tool_metrics) => {
            let error_count = count_failed(results);
            let diff_scores = collect_scores(results, false);
            let thread_scores = collect_scores(results, true);
            let average_diff = average(&diff_scores);
            let average_thread = average(&thread_scores);
            Some(
                Summary {
                    error_count,
                    diff_scores,
                    thread_scores,
                    average_diff,
                    average_thread,
                    tool_metrics,
                },
            )
        },
    }
}

/// Whether `summary` is the aggregate of `results`.
pub open spec fn summarizes(summary: Summary, results: Seq<RunOutcome>) -> bool {
    &&& summary.error_count == failed_runs(results)
    &&& summary.diff_scores@ == scores(results, false)
    &&& summary.thread_scores@ == scores(results, true)
    &&& mean_view(summary.average_diff) == average_spec(scores(results, false))
    &&& mean_view(summary.average_thread) == average_spec(scores(results, true))
    &&& summary.tool_metrics.wf()
    &&& forall|n: Seq<char>, f: bool| #[trigger]
        total(summary.tool_metrics.entries@, n, f) == merged_total(results, n, f)
}

/// Aggregates a whole evaluation after every unit has settled: the number
/// of failed runs, the diff and thread scores of the successful rounds with
/// their averages, and the merged tool metrics of the successful runs.
pub fn summarize(results: &Vec<RunOutcome>) -> (summary: Summary)
    requires
        totals_fit(results@),
    ensures
        summarizes(summary, results@),
        summary.average_thread is Some ==> summary.average_diff is Some,
{
    let error_count = count_failed(results);
    let diff_scores = collect_scores(results, false);
    let thread_scores = collect_scores(results, true);
    let average_diff = average(&diff_scores);
    let average_thread = average(&thread_scores);
    let tool_metrics = merge_successful(results);
    proof {
        lemma_thread_scores_within_diff_scores(results@);
    }
    Summary { error_count, diff_scores, thread_scores, average_diff, average_thread, tool_metrics }
}

/// The outcomes of all instances by submission index, filled in as units
/// settle in whatever order. A slot reads as a failed run until its run has
/// succeeded, and a round reads as failed until it has been judged.
#[derive(Clone, Debug)]
pub struct Collector {
    pub outcomes: Vec<RunOutcome>,
}

/// `count` rounds of which none has been judged.
pub open spec fn unjudged(count: nat) -> Seq<Option<JudgeOutput>> {
    Seq::new(count, |i: int| None)
}

impl Collector {
    /// A collector for `instances` instances, none of which has run.
    pub fn new(instances: usize) -> (collector: Collector)
        ensures
            collector.outcomes@.len() == instances,
            forall|i: int| 0 <= i < instances ==> (#[trigger] collector.outcomes@[i]) is Failed,
    {
        let mut outcomes: Vec<RunOutcome> = Vec::new();
        let mut i: usize = 0;
        while i < instances
            invariant
                i <= instances,
                outcomes@.len() == i,
                forall|k: int| 0 <= k < i ==> (#[trigger] outcomes@[k]) is Failed,
            decreases instances - i,
        {
            outcomes.push(RunOutcome::Failed);
            i += 1;
        }
        Collector { outcomes }
    }

    /// Files the output of the successful run of `unit`, with `judge_rounds`
    /// rounds still to be judged. No other slot changes.
    pub fn run_succeeded(&mut self, unit: usize, output: RunOutput, judge_rounds: u32)
        requires
            unit < old(self).outcomes@.len(),
        ensures
            final(self).outcomes@.len() == old(self).outcomes@.len(),
            forall|i: int|
                0 <= i < old(self).outcomes@.len() && i != unit ==> old(self).outcomes@[i]
                    == #[trigger] final(self).outcomes@[i],
            final(self).outcomes@[unit as int] is Completed,
            final(self).outcomes@[unit as int]->output == output,
            final(self).outcomes@[unit as int]->rounds@ == unjudged(judge_rounds as nat),
    {
        let mut rounds: Vec<Option<JudgeOutput>> = Vec::new();
        let mut r: u32 = 0;
        while r < judge_rounds
            invariant
                r <= judge_rounds,
                rounds@ == unjudged(r as nat),
            decreases judge_rounds - r,
        {
            rounds.push(None);
            assert(rounds@ =~= unjudged((r + 1) as nat));
            r += 1;
        }
        proof {
            assert(rounds@ =~= unjudged(judge_rounds as nat));
        }
        self.outcomes.set(unit, RunOutcome::Completed { output, rounds });
    }

    /// Files the outcome of round `round` of `unit`: the judge's output, or
    /// `None` for a judge that failed. Nothing else changes.
    pub fn round_settled(&mut self, unit: usize, round: usize, judged: Option<JudgeOutput>)
        requires
            unit < old(self).outcomes@.len(),
            old(self).outcomes@[unit as int] is Completed,
            round < old(self).outcomes@[unit as int]->rounds@.len(),
        ensures
            final(self).outcomes@.len() == old(self).outcomes@.len(),
            forall|i: int|
                0 <= i < old(self).outcomes@.len() && i != unit ==> old(self).outcomes@[i]
                    == #[trigger] final(self).outcomes@[i],
            final(self).outcomes@[unit as int] is Completed,
            final(self).outcomes@[unit as int]->output == old(self).outcomes@[unit as int]->output,
            final(self).outcomes@[unit as int]->rounds@
                == old(self).outcomes@[unit as int]->rounds@.update(round as int, judged),
    {
        match &mut self.outcomes[unit] {
            RunOutcome::Completed { output, rounds } => {
                rounds[round] = judged;
            },
            RunOutcome::Failed => {},
        }
    }

    /// The outcomes in submission order.
    pub fn into_results(self) -> (results: Vec<RunOutcome>)
        ensures
            results == self.outcomes,
    {
        self.outcomes
    }
}

} // verus!
