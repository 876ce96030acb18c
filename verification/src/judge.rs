//! Identification of judge rounds for telemetry.

use crate::results::{JudgeOutput, RunOutput};
use vstd::prelude::*;

verus! {

/// What a run was made with: the model and its provider, and the repository
/// and revision the instance started from.
#[derive(Clone, Debug)]
pub struct RunIdentity {
    pub model: String,
    pub model_provider: String,
    pub repository_url: String,
    pub repository_revision: String,
}

/// The telemetry record of one successful judge round: what the judge said
/// of the round, what identifies the round and the run, and the output of
/// the run that was judged.
#[derive(Clone, Debug)]
pub struct JudgeEvent {
    pub cohort_id: String,
    pub example_name: String,
    pub round: u32,
    pub diff_score: u32,
    pub diff_analysis: String,
    pub thread_score: Option<u32>,
    pub thread_analysis: Option<String>,
    pub commit_id: String,
    pub identity: RunIdentity,
    pub run_output: RunOutput,
}

/// What identifies a judge round: the instance's name, the name of its run
/// directory where it has one, the timestamp to fall back on, the round
/// index, and the harness's own commit where it could be read.
#[derive(Clone, Debug)]
pub struct RoundContext {
    pub example_name: String,
    pub directory_name: Option<String>,
    pub timestamp: String,
    pub round: u32,
    pub commit: Option<String>,
}

/// The view of an optional string.
pub open spec fn optional_text(text: Option<String>) -> Option<Seq<char>> {
    match text {
        Some(t) => Some(t@),
        None => None,
    }
}

/// Whether `event` is the record of the judged round `judged` in `context`,
/// for the run `run_output` made with `identity`.
pub open spec fn event_records(
    event: JudgeEvent,
    judged: JudgeOutput,
    context: RoundContext,
    identity: RunIdentity,
    run_output: RunOutput,
) -> bool {
    &&& event.identity == identity
    &&& event.run_output == run_output
    &&& event.cohort_id@ == cohort_id_spec(optional_text(context.directory_name), context.timestamp@)
    &&& event.example_name@ == context.example_name@
    &&& event.round == context.round
    &&& event.diff_score == judged.diff.score
    &&& event.diff_analysis@ == judged.diff.analysis@
    &&& match judged.thread {
        Some(thread) => event.thread_score == Some(thread.score) && optional_text(
            event.thread_analysis,
        ) == Some(thread.analysis@),
        None => event.thread_score is None && event.thread_analysis is None,
    }
    &&& event.commit_id@ == match context.commit {
        Some(c) => c@,
        None => Seq::<char>::empty(),
    }
}

/// The cohort identifier shared by all judge rounds of one run: the name of
/// the run's output directory when it has one, otherwise the fallback
/// timestamp.
pub open spec fn cohort_id_spec(directory_name: Option<Seq<char>>, timestamp: Seq<char>) -> Seq<
    char,
> {
    match directory_name {
        Some(name) => name,
        None => timestamp,
    }
}

/// Chooses the cohort identifier for a judge round.
pub fn cohort_id(directory_name: Option<String>, timestamp: String) -> (id: String)
    ensures
        id@ == cohort_id_spec(optional_text(directory_name), timestamp@),
{
    match directory_name {
        Some(name) => name,
        None => timestamp,
    }
}

/// The commit identifier recorded with a judge round: the one that was read,
/// or the empty string when none could be read.
pub fn commit_id_or_empty(commit: Option<String>) -> (id: String)
    ensures
        match commit {
            Some(c) => id@ == c@,
            None => id@ == Seq::<char>::empty(),
        },
{
    match commit {
        Some(c) => c,
        None => String::new(),
    }
}

/// The telemetry record a settled judge round calls for: one record for a
/// round that succeeded, with or without a thread judgement, and none for a
/// round that failed.
pub fn judge_event(
    outcome: &Option<JudgeOutput>,
    context: RoundContext,
    identity: RunIdentity,
    run_output: RunOutput,
) -> (event: Option<JudgeEvent>)
    ensures
        match *outcome {
            Some(judged) => event is Some && event_records(
                event->Some_0,
                judged,
                context,
                identity,
                run_output,
            ),
            None => event is None,
        },
{
    match outcome {
        None => None,
        Some(judged) => {
            let (thread_score, thread_analysis) = match &judged.thread {
                Some(thread) => (Some(thread.score), Some(thread.analysis.clone())),
                None => (None, None),
            };
            Some(
                JudgeEvent {
                    cohort_id: cohort_id(context.directory_name, context.timestamp),
                    example_name: context.example_name,
                    round: context.round,
                    diff_score: judged.diff.score,
                    diff_analysis: judged.diff.analysis.clone(),
                    thread_score,
                    thread_analysis,
                    commit_id: commit_id_or_empty(context.commit),
                    identity,
                    run_output,
                },
            )
        },
    }
}

/// `chrono::Local::now()` rendered with `format` as year, month, day, hour,
/// minute and second. The text depends on the clock and on the time zone, so
/// nothing is claimed of it. The call does not return on a machine whose
/// clock stands before 1970; no argument decides that.
#[verifier::external_body]
fn local_timestamp() -> (stamp: String) {
    chrono::Local::now().format("%Y-%m-%d_%H-%M-%S").to_string()
}

/// The context of a judge round with `stamp` as its fallback timestamp.
pub open spec fn context_at(
    example_name: String,
    directory_name: Option<String>,
    stamp: String,
    round: u32,
    commit: Option<String>,
) -> RoundContext {
    RoundContext { example_name, directory_name, timestamp: stamp, round, commit }
}

/// Settles a judge round at the present moment: reads the clock for the
/// fallback timestamp and builds the record that the round calls for.
/// Whatever the clock says, a successful round gives exactly one record, a
/// failed round none, and the record is that of the round with the clock's
/// text as its timestamp; with a run directory the clock does not matter.
pub fn settle_round(
    outcome: &Option<JudgeOutput>,
    example_name: String,
    directory_name: Option<String>,
    round: u32,
    commit: Option<String>,
    identity: RunIdentity,
    run_output: RunOutput,
) -> (event: Option<JudgeEvent>)
    ensures
        match *outcome {
            Some(judged) => event is Some && exists|stamp: String|
                event_records(
                    event->Some_0,
                    judged,
                    #[trigger] context_at(example_name, directory_name, stamp, round, commit),
                    identity,
                    run_output,
                ),
            None => event is None,
        },
        event is Some && directory_name is Some ==> event->Some_0.cohort_id@
            == directory_name->Some_0@,
{
    let stamp = local_timestamp();
    let context = RoundContext { example_name, directory_name, timestamp: stamp, round, commit };
    proof {
        assert(context == context_at(example_name, directory_name, stamp, round, commit));
    }
    judge_event(outcome, context, identity, run_output)
}

} // verus!
