use codex_limit_monitor::local_usage::{
    add_response_tokens, history_days, history_window_start, summary_from_queries, summary_or_failure,
    thread_title, token_breakdown_from_bodies, try_add_response_tokens, week_window_start, LocalUsageError,
};
use codex_limit_monitor::models::{ModelUsage, ThreadUsage, TokenBreakdown, UsageSummary};

#[test]
fn parses_response_token_counts() {
    let mut breakdown = TokenBreakdown::default();
    add_response_tokens(
        &mut breakdown,
        "event.kind=response.completed input_token_count=40917 output_token_count=410 cached_token_count=39296 reasoning_token_count=32 tool_token_count=41327",
    );

    assert_eq!(breakdown.input, 40917);
    assert_eq!(breakdown.output, 410);
    assert_eq!(breakdown.cached, 39296);
    assert_eq!(breakdown.reasoning, 32);
    assert_eq!(breakdown.tool, 41327);
    assert_eq!(breakdown.responses, 1);
}

#[test]
fn repeated_kinds_are_summed_and_the_response_counted_once() {
    let mut breakdown = TokenBreakdown::default();
    add_response_tokens(&mut breakdown, "input_token_count=5 input_token_count=7 tool_token_count=1");
    assert_eq!(breakdown.input, 12);
    assert_eq!(breakdown.tool, 1);
    assert_eq!(breakdown.output, 0);
    assert_eq!(breakdown.responses, 1);
}

#[test]
fn body_without_counts_changes_nothing() {
    let mut breakdown = TokenBreakdown::default();
    breakdown.input = 3;
    add_response_tokens(&mut breakdown, "event.kind=response.completed nothing else");
    assert_eq!(breakdown.input, 3);
    assert_eq!(breakdown.responses, 0);
}

#[test]
fn count_that_does_not_fit_adds_zero_but_counts_the_response() {
    let mut breakdown = TokenBreakdown::default();
    add_response_tokens(&mut breakdown, "output_token_count=99999999999999999999");
    assert_eq!(breakdown.output, 0);
    assert_eq!(breakdown.responses, 1);
}

#[test]
fn bodies_in_either_order_give_the_same_totals() {
    let a = "input_token_count=10 output_token_count=2";
    let b = "input_token_count=1 cached_token_count=4";
    let mut first = TokenBreakdown::default();
    add_response_tokens(&mut first, a);
    add_response_tokens(&mut first, b);
    let mut second = TokenBreakdown::default();
    add_response_tokens(&mut second, b);
    add_response_tokens(&mut second, a);
    assert_eq!(first, second);
    assert_eq!(first.input, 11);
    assert_eq!(first.responses, 2);
}

#[test]
fn overflowing_count_is_refused_and_leaves_breakdown() {
    let mut breakdown = TokenBreakdown::default();
    breakdown.input = i64::MAX - 1;
    assert!(!try_add_response_tokens(&mut breakdown, "input_token_count=5"));
    assert_eq!(breakdown.input, i64::MAX - 1);
    assert_eq!(breakdown.responses, 0);
    assert!(try_add_response_tokens(&mut breakdown, "input_token_count=1"));
    assert_eq!(breakdown.input, i64::MAX);
    assert_eq!(breakdown.responses, 1);
}

#[test]
fn breakdown_from_bodies_skips_missing_bodies() {
    let bodies = vec![
        Some("input_token_count=2".to_string()),
        None,
        Some("output_token_count=3 reasoning_token_count=4".to_string()),
        Some("no counts here".to_string()),
    ];
    let b = token_breakdown_from_bodies(&bodies).unwrap();
    assert_eq!(b.input, 2);
    assert_eq!(b.output, 3);
    assert_eq!(b.reasoning, 4);
    assert_eq!(b.responses, 2);
}

#[test]
fn breakdown_from_bodies_reports_overflow() {
    let bodies = vec![
        Some("tool_token_count=9223372036854775807".to_string()),
        Some("tool_token_count=1".to_string()),
    ];
    assert!(token_breakdown_from_bodies(&bodies).is_none());
}

#[test]
fn history_ranges() {
    assert_eq!(history_days("24h"), 1);
    assert_eq!(history_days("30d"), 30);
    assert_eq!(history_days("7d"), 7);
    assert_eq!(history_days("anything"), 7);
    assert_eq!(history_window_start(1_000_000, "24h"), 1_000_000 - 86_400);
    assert_eq!(history_window_start(10_000_000, "30d"), 10_000_000 - 30 * 86_400);
    assert_eq!(week_window_start(1_000_000), 1_000_000 - 7 * 86_400);
}

#[test]
fn untitled_thread() {
    assert_eq!(thread_title(None), "Untitled");
    assert_eq!(thread_title(Some("Fix tests".to_string())), "Fix tests");
}

fn thread(id: &str, updated_at: i64) -> ThreadUsage {
    ThreadUsage {
        id: id.to_string(),
        title: format!("thread {id}"),
        tokens_used: 100,
        model: Some("gpt-5".to_string()),
        reasoning_effort: None,
        updated_at,
        cwd: Some("/work".to_string()),
    }
}

#[test]
fn summary_takes_most_recent_thread_as_current() {
    let recent = vec![thread("b", 20), thread("a", 10)];
    let models = vec![ModelUsage { model: "gpt-5".to_string(), tokens: 200, threads: 2 }];
    let s = summary_from_queries((200, 2), (100, 1), (150, 2), recent.clone(), models.clone(), None, "/home/u/.codex/state_5.sqlite".to_string());
    assert_eq!(s.total_tokens, 200);
    assert_eq!(s.thread_count, 2);
    assert_eq!(s.today_tokens, 100);
    assert_eq!(s.today_thread_count, 1);
    assert_eq!(s.week_tokens, 150);
    assert_eq!(s.week_thread_count, 2);
    assert_eq!(s.current_thread, Some(thread("b", 20)));
    assert_eq!(s.recent_threads, recent);
    assert_eq!(s.model_breakdown, models);
    assert_eq!(s.token_breakdown, TokenBreakdown::default());
    assert_eq!(s.source_path.as_deref(), Some("/home/u/.codex/state_5.sqlite"));
    assert_eq!(s.error, None);
    assert!(s.has_data());

    let empty = summary_from_queries((0, 0), (0, 0), (0, 0), Vec::new(), Vec::new(), None, "p".to_string());
    assert_eq!(empty.current_thread, None);
    assert!(!empty.has_data());
}

#[test]
fn failed_summary_carries_message_and_home() {
    let err = LocalUsageError::MissingStateDb("/h/.codex/state_5.sqlite".to_string());
    assert_eq!(err.message(), "Codex state database was not found at /h/.codex/state_5.sqlite");
    let s = summary_or_failure(Err(err), "/h/.codex".to_string());
    assert_eq!(s.source_path.as_deref(), Some("/h/.codex"));
    assert_eq!(s.error.as_deref(), Some("Codex state database was not found at /h/.codex/state_5.sqlite"));
    assert_eq!(s.total_tokens, 0);
    assert!(s.recent_threads.is_empty());
    assert!(!s.has_data());

    let sqlite = LocalUsageError::Sqlite("database is locked".to_string());
    assert_eq!(sqlite.message(), "SQLite error: database is locked");

    let ok = summary_or_failure(Ok(UsageSummary::default()), "/h".to_string());
    assert_eq!(ok, UsageSummary::default());
}
