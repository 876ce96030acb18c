use eval::judge::{cohort_id, commit_id_or_empty};
use eval::metrics::{ToolCount, ToolMetrics};
use eval::model::{find_model, join_names};
use eval::report::{report_blocks, round_rows, InstanceBlock, RoundRow};
use eval::results::{
    average, collect_scores, count_failed, merge_successful, summarize, JudgeOutput, Judgement,
    RunOutcome, RunOutput,
};

fn metrics(items: &[(&str, u32, u32)]) -> ToolMetrics {
    let mut m = ToolMetrics::new();
    for (name, uses, failures) in items {
        m.add_counts(&name.to_string(), *uses, *failures);
    }
    m
}

fn output(items: &[(&str, u32, u32)]) -> RunOutput {
    RunOutput {
        tool_metrics: metrics(items),
        response_count: 1,
        input_tokens: 10,
        output_tokens: 20,
        diagnostics_before: 0,
        diagnostics_after: 0,
    }
}

fn judged(diff: u32, thread: Option<u32>) -> Option<JudgeOutput> {
    Some(JudgeOutput {
        diff: Judgement { score: diff, analysis: "diff analysis".to_string() },
        thread: thread.map(|score| Judgement { score, analysis: "thread analysis".to_string() }),
    })
}

fn identity() -> eval::judge::RunIdentity {
    eval::judge::RunIdentity {
        model: "large-latest".to_string(),
        model_provider: "provider".to_string(),
        repository_url: "https://example/repo.git".to_string(),
        repository_revision: "abcdef".to_string(),
    }
}

fn completed(items: &[(&str, u32, u32)], rounds: Vec<Option<JudgeOutput>>) -> RunOutcome {
    RunOutcome::Completed { output: output(items), rounds }
}

fn counts(m: &ToolMetrics, name: &str) -> (u32, u32) {
    m.counts_of(&name.to_string())
}

fn sample(order: &[usize]) -> Vec<RunOutcome> {
    order
        .iter()
        .map(|k| match k {
            0 => completed(&[("edit", 3, 1), ("grep", 2, 0)], vec![judged(80, Some(60))]),
            1 => completed(&[("grep", 5, 2), ("bash", 1, 1)], vec![judged(40, None), None]),
            2 => RunOutcome::Failed,
            _ => completed(&[("edit", 1, 0)], vec![None, judged(100, Some(90))]),
        })
        .collect()
}

#[test]
fn new_metrics_count_nothing() {
    let m = ToolMetrics::new();
    assert!(m.entries.is_empty());
    assert_eq!(counts(&m, "edit"), (0, 0));
}

#[test]
fn add_counts_accumulates_per_tool() {
    let mut m = ToolMetrics::new();
    m.add_counts(&"edit".to_string(), 2, 1);
    m.add_counts(&"grep".to_string(), 1, 0);
    m.add_counts(&"edit".to_string(), 3, 0);
    assert_eq!(counts(&m, "edit"), (5, 1));
    assert_eq!(counts(&m, "grep"), (1, 0));
    assert_eq!(counts(&m, "bash"), (0, 0));
    assert_eq!(m.entries.len(), 2);
}

#[test]
fn merge_adds_counters_pointwise() {
    let mut a = metrics(&[("edit", 3, 1), ("grep", 2, 0)]);
    let b = metrics(&[("grep", 5, 2), ("bash", 1, 1)]);
    a.merge(&b);
    assert_eq!(counts(&a, "edit"), (3, 1));
    assert_eq!(counts(&a, "grep"), (7, 2));
    assert_eq!(counts(&a, "bash"), (1, 1));
    assert_eq!(a.entries.len(), 3);
}

#[test]
fn merge_is_commutative() {
    let mut ab = metrics(&[("edit", 3, 1), ("grep", 2, 0)]);
    ab.merge(&metrics(&[("grep", 5, 2), ("bash", 1, 1)]));
    let mut ba = metrics(&[("grep", 5, 2), ("bash", 1, 1)]);
    ba.merge(&metrics(&[("edit", 3, 1), ("grep", 2, 0)]));
    for name in ["edit", "grep", "bash", "none"] {
        assert_eq!(counts(&ab, name), counts(&ba, name));
    }
}

#[test]
fn merged_metrics_do_not_depend_on_order() {
    let first = merge_successful(&sample(&[0, 1, 2, 3]));
    let orders: [[usize; 4]; 4] = [[3, 2, 1, 0], [1, 0, 3, 2], [2, 3, 0, 1], [0, 3, 1, 2]];
    for order in orders.iter() {
        let other = merge_successful(&sample(order));
        for name in ["edit", "grep", "bash", "none"] {
            assert_eq!(counts(&first, name), counts(&other, name));
        }
    }
    assert_eq!(counts(&first, "edit"), (4, 1));
    assert_eq!(counts(&first, "grep"), (7, 2));
    assert_eq!(counts(&first, "bash"), (1, 1));
}

#[test]
fn failed_runs_are_counted_and_excluded_from_scores() {
    let results = sample(&[0, 2, 1, 2, 3]);
    assert_eq!(count_failed(&results), 2);
    assert_eq!(collect_scores(&results, false), vec![80, 40, 100]);
    assert_eq!(collect_scores(&results, true), vec![60, 90]);
}

#[test]
fn average_is_mean_of_successful_rounds() {
    let mean = average(&vec![80, 40, 100]).unwrap();
    assert_eq!(mean.sum, 220);
    assert_eq!(mean.count, 3);
    let single = average(&vec![7]).unwrap();
    assert_eq!((single.sum, single.count), (7, 1));
}

#[test]
fn average_of_large_scores_does_not_overflow() {
    let mean = average(&vec![u32::MAX, u32::MAX, u32::MAX]).unwrap();
    assert_eq!(mean.sum, 3 * (u32::MAX as u128));
    assert_eq!(mean.count, 3);
}

#[test]
fn no_scores_no_average() {
    assert!(average(&Vec::new()).is_none());
    let results = vec![RunOutcome::Failed, completed(&[("edit", 1, 0)], vec![None, None])];
    let summary = summarize(&results);
    assert_eq!(summary.error_count, 1);
    assert!(summary.diff_scores.is_empty());
    assert!(summary.thread_scores.is_empty());
    assert!(summary.average_diff.is_none());
    assert!(summary.average_thread.is_none());
    assert_eq!(counts(&summary.tool_metrics, "edit"), (1, 0));
}

#[test]
fn summary_of_a_whole_evaluation() {
    let summary = summarize(&sample(&[0, 1, 2, 3]));
    assert_eq!(summary.error_count, 1);
    assert_eq!(summary.diff_scores, vec![80, 40, 100]);
    assert_eq!(summary.thread_scores, vec![60, 90]);
    let diff = summary.average_diff.unwrap();
    assert_eq!((diff.sum, diff.count), (220, 3));
    let thread = summary.average_thread.unwrap();
    assert_eq!((thread.sum, thread.count), (150, 2));
    assert_eq!((diff.sum as f32) / (diff.count as f32), 220.0 / 3.0);
    assert_eq!(counts(&summary.tool_metrics, "grep"), (7, 2));
}

#[test]
fn round_without_thread_score_counts_for_diff_only() {
    let results = vec![completed(&[], vec![judged(50, None), judged(70, None)])];
    let summary = summarize(&results);
    assert_eq!(summary.diff_scores, vec![50, 70]);
    assert!(summary.thread_scores.is_empty());
    assert!(summary.average_thread.is_none());
    assert_eq!(summary.average_diff.unwrap().sum, 120);
}

#[test]
fn round_rows_number_rounds_from_one() {
    let rows = round_rows(&vec![judged(80, Some(60)), None, judged(40, None)]);
    assert_eq!(
        rows,
        vec![
            RoundRow { round: 1, diff: Some(80), thread: Some(60) },
            RoundRow { round: 2, diff: None, thread: None },
            RoundRow { round: 3, diff: Some(40), thread: None },
        ]
    );
}

#[test]
fn scenario_report_has_one_block_per_instance_with_three_rows() {
    let results = vec![
        completed(&[], vec![judged(1, None), judged(2, None), None]),
        completed(&[], vec![None, None, judged(3, Some(4))]),
    ];
    let blocks = report_blocks(&results);
    assert_eq!(blocks.len(), 2);
    for block in blocks.iter() {
        match block {
            InstanceBlock::Rounds(rows) => {
                assert_eq!(rows.len(), 3);
                assert_eq!(rows.iter().map(|r| r.round).collect::<Vec<_>>(), vec![1, 2, 3]);
            }
            InstanceBlock::RunFailed => panic!("run did not fail"),
        }
    }
}

#[test]
fn report_keeps_submission_order() {
    let blocks = report_blocks(&sample(&[2, 0, 2, 1]));
    assert_eq!(blocks.len(), 4);
    assert!(matches!(blocks[0], InstanceBlock::RunFailed));
    assert!(matches!(blocks[2], InstanceBlock::RunFailed));
    match &blocks[1] {
        InstanceBlock::Rounds(rows) => {
            assert_eq!(rows, &vec![RoundRow { round: 1, diff: Some(80), thread: Some(60) }])
        }
        InstanceBlock::RunFailed => panic!("run did not fail"),
    }
    match &blocks[3] {
        InstanceBlock::Rounds(rows) => assert_eq!(rows.len(), 2),
        InstanceBlock::RunFailed => panic!("run did not fail"),
    }
}

#[test]
fn find_model_returns_first_match() {
    let available: Vec<String> =
        ["small", "large-latest", "large-latest"].iter().map(|s| s.to_string()).collect();
    assert_eq!(find_model(&"large-latest".to_string(), &available), Ok(1));
    assert_eq!(find_model(&"small".to_string(), &available), Ok(0));
}

#[test]
fn find_model_lists_available_models_when_missing() {
    let available: Vec<String> = ["a", "b", "c"].iter().map(|s| s.to_string()).collect();
    assert_eq!(
        find_model(&"zzz".to_string(), &available),
        Err("No language model named zzz was available. Available models: a, b, c".to_string())
    );
    assert_eq!(
        find_model(&"zzz".to_string(), &Vec::new()),
        Err("No language model named zzz was available. Available models: ".to_string())
    );
}

#[test]
fn join_names_separates_with_comma_and_space() {
    let names: Vec<String> = ["a", "b"].iter().map(|s| s.to_string()).collect();
    assert_eq!(join_names(&names), "a, b");
    assert_eq!(join_names(&vec!["only".to_string()]), "only");
    assert_eq!(join_names(&Vec::new()), "");
}

#[test]
fn cohort_is_directory_name_or_timestamp() {
    assert_eq!(
        cohort_id(Some("2025-01-01_00-00-00".to_string()), "now".to_string()),
        "2025-01-01_00-00-00"
    );
    assert_eq!(cohort_id(None, "now".to_string()), "now");
}

#[test]
fn unreadable_commit_is_empty() {
    assert_eq!(commit_id_or_empty(Some("abc123".to_string())), "abc123");
    assert_eq!(commit_id_or_empty(None), "");
}

#[test]
fn tool_count_fields_are_plain_values() {
    let entry = ToolCount { name: "edit".to_string(), uses: 2, failures: 1 };
    let m = ToolMetrics { entries: vec![entry] };
    assert_eq!(counts(&m, "edit"), (2, 1));
}

#[test]
fn successful_round_gives_one_event() {
    let context = eval::judge::RoundContext {
        example_name: "foo_a".to_string(),
        directory_name: Some("2025-01-01_00-00-00".to_string()),
        timestamp: "later".to_string(),
        round: 2,
        commit: Some("abc123".to_string()),
    };
    let event = eval::judge::judge_event(
        &judged(80, Some(60)),
        context,
        identity(),
        output(&[("edit", 2, 1)]),
    )
    .unwrap();
    assert_eq!(event.identity.model, "large-latest");
    assert_eq!(event.identity.model_provider, "provider");
    assert_eq!(event.identity.repository_url, "https://example/repo.git");
    assert_eq!(event.identity.repository_revision, "abcdef");
    assert_eq!(counts(&event.run_output.tool_metrics, "edit"), (2, 1));
    assert_eq!(event.run_output.response_count, 1);
    assert_eq!(event.run_output.input_tokens, 10);
    assert_eq!(event.run_output.output_tokens, 20);
    assert_eq!(event.cohort_id, "2025-01-01_00-00-00");
    assert_eq!(event.example_name, "foo_a");
    assert_eq!(event.round, 2);
    assert_eq!(event.diff_score, 80);
    assert_eq!(event.diff_analysis, "diff analysis");
    assert_eq!(event.thread_score, Some(60));
    assert_eq!(event.thread_analysis, Some("thread analysis".to_string()));
    assert_eq!(event.commit_id, "abc123");
}

#[test]
fn event_without_thread_or_directory_or_commit() {
    let context = eval::judge::RoundContext {
        example_name: "foo_a".to_string(),
        directory_name: None,
        timestamp: "2025-02-02_10-00-00".to_string(),
        round: 0,
        commit: None,
    };
    let event =
        eval::judge::judge_event(&judged(55, None), context, identity(), output(&[])).unwrap();
    assert_eq!(event.cohort_id, "2025-02-02_10-00-00");
    assert_eq!(event.diff_score, 55);
    assert_eq!(event.thread_score, None);
    assert_eq!(event.thread_analysis, None);
    assert_eq!(event.commit_id, "");
}

#[test]
fn failed_round_gives_no_event() {
    let context = eval::judge::RoundContext {
        example_name: "foo_a".to_string(),
        directory_name: None,
        timestamp: "t".to_string(),
        round: 1,
        commit: None,
    };
    assert!(eval::judge::judge_event(&None, context, identity(), output(&[])).is_none());
}

#[test]
fn settled_round_falls_back_to_a_timestamp() {
    let event =
        eval::judge::settle_round(
            &judged(10, None),
            "foo_a".to_string(),
            None,
            0,
            None,
            identity(),
            output(&[]),
        )
        .unwrap();
    let stamp: Vec<char> = event.cohort_id.chars().collect();
    assert_eq!(stamp.len(), 19);
    for (i, c) in stamp.iter().enumerate() {
        match i {
            4 | 7 | 13 | 16 => assert_eq!(*c, '-'),
            10 => assert_eq!(*c, '_'),
            _ => assert!(c.is_ascii_digit()),
        }
    }
    assert_eq!(event.example_name, "foo_a");
    assert_eq!(event.commit_id, "");
}

#[test]
fn settled_round_prefers_the_run_directory() {
    let event = eval::judge::settle_round(
        &judged(10, Some(20)),
        "foo_a".to_string(),
        Some("run-7".to_string()),
        1,
        Some("abc".to_string()),
        identity(),
        output(&[("grep", 1, 0)]),
    )
    .unwrap();
    assert_eq!(counts(&event.run_output.tool_metrics, "grep"), (1, 0));
    assert_eq!(event.cohort_id, "run-7");
    assert_eq!(event.round, 1);
    assert_eq!(event.thread_score, Some(20));
    assert!(eval::judge::settle_round(
        &None,
        "foo_a".to_string(),
        None,
        1,
        None,
        identity(),
        output(&[])
    )
    .is_none());
}

#[test]
fn collector_keeps_submission_order_whatever_the_completion_order() {
    let mut collector = eval::results::Collector::new(3);
    assert_eq!(collector.outcomes.len(), 3);
    assert!(collector.outcomes.iter().all(|o| matches!(o, RunOutcome::Failed)));
    collector.run_succeeded(2, output(&[("edit", 1, 0)]), 2);
    collector.run_succeeded(0, output(&[("grep", 4, 1)]), 3);
    collector.round_settled(0, 2, judged(30, None));
    collector.round_settled(2, 0, judged(90, Some(70)));
    collector.round_settled(0, 0, judged(10, Some(20)));
    collector.round_settled(0, 1, None);
    collector.round_settled(2, 1, None);
    let results = collector.into_results();
    assert_eq!(results.len(), 3);
    assert!(matches!(results[1], RunOutcome::Failed));
    match &results[0] {
        RunOutcome::Completed { output, rounds } => {
            assert_eq!(counts(&output.tool_metrics, "grep"), (4, 1));
            assert_eq!(rounds.len(), 3);
            assert_eq!(rounds[0].as_ref().map(|j| j.diff.score), Some(10));
            assert!(rounds[1].is_none());
            assert_eq!(rounds[2].as_ref().map(|j| j.diff.score), Some(30));
        }
        RunOutcome::Failed => panic!("run did not fail"),
    }
    assert_eq!(collect_scores(&results, false), vec![10, 30, 90]);
    assert_eq!(collect_scores(&results, true), vec![20, 70]);
    assert_eq!(count_failed(&results), 1);
}

#[test]
fn collector_with_no_judge_rounds() {
    let mut collector = eval::results::Collector::new(1);
    collector.run_succeeded(0, output(&[]), 0);
    let results = collector.into_results();
    match &results[0] {
        RunOutcome::Completed { rounds, .. } => assert!(rounds.is_empty()),
        RunOutcome::Failed => panic!("run did not fail"),
    }
}

#[test]
fn checked_add_refuses_a_sum_that_does_not_fit() {
    let mut m = metrics(&[("edit", u32::MAX - 1, 0)]);
    assert!(m.try_add_counts(&"edit".to_string(), 1, 5));
    assert_eq!(counts(&m, "edit"), (u32::MAX, 5));
    assert!(!m.try_add_counts(&"edit".to_string(), 1, 0));
    assert_eq!(counts(&m, "edit"), (u32::MAX, 5));
    assert!(!m.try_add_counts(&"edit".to_string(), 0, u32::MAX));
    assert_eq!(counts(&m, "edit"), (u32::MAX, 5));
    assert!(m.try_add_counts(&"grep".to_string(), u32::MAX, u32::MAX));
    assert_eq!(counts(&m, "grep"), (u32::MAX, u32::MAX));
}

#[test]
fn checked_merge_says_whether_every_sum_fits() {
    let mut a = metrics(&[("edit", 3, 1), ("grep", 2, 0)]);
    assert!(a.try_merge(&metrics(&[("grep", 5, 2), ("bash", 1, 1)])));
    assert_eq!(counts(&a, "grep"), (7, 2));
    assert_eq!(counts(&a, "bash"), (1, 1));
    assert!(!a.try_merge(&metrics(&[("bash", 1, 0), ("grep", u32::MAX, 0)])));
    assert!(a.try_merge(&metrics(&[("grep", u32::MAX - 7, 0)])));
    assert_eq!(counts(&a, "grep"), (u32::MAX, 2));
}

#[test]
fn checked_summary_is_none_exactly_on_overflow() {
    let fits = sample(&[0, 1, 2, 3]);
    let summary = eval::results::try_summarize(&fits).unwrap();
    assert_eq!(summary.error_count, 1);
    assert_eq!(summary.diff_scores, vec![80, 40, 100]);
    assert_eq!(counts(&summary.tool_metrics, "grep"), (7, 2));
    let merged = eval::results::try_merge_successful(&fits).unwrap();
    assert_eq!(counts(&merged, "edit"), (4, 1));

    let overflows = vec![
        completed(&[("edit", u32::MAX, 0)], vec![]),
        RunOutcome::Failed,
        completed(&[("edit", 1, 0)], vec![]),
    ];
    assert!(eval::results::try_summarize(&overflows).is_none());
    assert!(eval::results::try_merge_successful(&overflows).is_none());
    let at_the_limit = vec![
        completed(&[("edit", u32::MAX - 1, 0)], vec![]),
        completed(&[("edit", 1, 0)], vec![]),
    ];
    let merged = eval::results::try_merge_successful(&at_the_limit).unwrap();
    assert_eq!(counts(&merged, "edit"), (u32::MAX, 0));
}
