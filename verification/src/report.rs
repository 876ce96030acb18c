//! The content of the final report: one block per instance in submission
//! order, each with a row per judge round or the marker of a failed run.

use crate::results::{round_score, JudgeOutput, RunOutcome};
use vstd::prelude::*;

verus! {

/// One row of an instance's judge table: the round number, counted from
/// one, and the two scores; a missing score is shown as not available.
#[derive(Clone, Copy, PartialEq, Eq, Structural, Debug)]
pub struct RoundRow {
    pub round: usize,
    pub diff: Option<u32>,
    pub thread: Option<u32>,
}

/// What the report shows for one instance.
#[derive(Clone, Debug)]
pub enum InstanceBlock {
    RunFailed,
    Rounds(Vec<RoundRow>),
}

/// The row of round `i`.
pub open spec fn row_at(rounds: Seq<Option<JudgeOutput>>, i: int) -> RoundRow {
    RoundRow {
        round: (i + 1) as usize,
        diff: round_score(rounds[i], false),
        thread: round_score(rounds[i], true),
    }
}

/// The rows of an instance's judge table, one per round, in round order.
pub open spec fn rows_of(rounds: Seq<Option<JudgeOutput>>) -> Seq<RoundRow> {
    Seq::new(rounds.len(), |i: int| row_at(rounds, i))
}

/// Whether `block` is what the report shows for `outcome`.
pub open spec fn block_shows(block: InstanceBlock, outcome: RunOutcome) -> bool {
    match outcome {
        RunOutcome::Failed => block is RunFailed,
        RunOutcome::Completed { output, rounds } => block is Rounds && block->Rounds_0@ == rows_of(
            rounds@,
        ),
    }
}

/// The judge table of one instance.
pub fn round_rows(rounds: &Vec<Option<JudgeOutput>>) -> (rows: Vec<RoundRow>)
    ensures
        rows@ == rows_of(rounds@),
{
    let mut rows: Vec<RoundRow> = Vec::new();
    let mut i: usize = 0;
    while i < rounds.len()
        invariant
            i <= rounds.len(),
            rows@.len() == i,
            forall|k: int| 0 <= k < i ==> #[trigger] rows@[k] == row_at(rounds@, k),
        decreases rounds.len() - i,
    {
        let row = match &rounds[i] {
            Some(judged) => RoundRow {
                round: i + 1,
                diff: Some(judged.diff.score),
                thread: match &judged.thread {
                    Some(judgement) => Some(judgement.score),
                    None => None,
                },
            },
            None => RoundRow { round: i + 1, diff: None, thread: None },
        };
        rows.push(row);
        i += 1;
    }
    assert(rows@ =~= rows_of(rounds@));
    rows
}

/// The blocks of the report: one per instance, in the order of `results`,
/// which is the order of submission whatever the order of completion was.
pub fn report_blocks(results: &Vec<RunOutcome>) -> (blocks: Vec<InstanceBlock>)
    ensures
        blocks@.len() == results@.len(),
        forall|i: int|
            0 <= i < results@.len() ==> block_shows(#[trigger] blocks@[i], results@[i]),
{
    let mut blocks: Vec<InstanceBlock> = Vec::new();
    let mut i: usize = 0;
    while i < results.len()
        invariant
            i <= results.len(),
            blocks@.len() == i,
            forall|k: int| 0 <= k < i ==> block_shows(#[trigger] blocks@[k], results@[k]),
        decreases results.len() - i,
    {
        let block = match &results[i] {
            RunOutcome::Failed => InstanceBlock::RunFailed,
            RunOutcome::Completed { output, rounds } => InstanceBlock::Rounds(round_rows(rounds)),
        };
        blocks.push(block);
        i += 1;
    }
    blocks
}

} // verus!
