use codex_limit_monitor::codex_rpc::CodexRpcError;
use codex_limit_monitor::models::{LiveStatus, MonitorSnapshot, ThreadUsage, UsageSummary};
use codex_limit_monitor::monitor::{
    format_reset, limit_label, notification_key, notifications_muted, plan_notifications, reset_phrase, LimitAlert,
    Notice, NotificationMemory, ThresholdLevel,
};

fn summary_with_thread() -> UsageSummary {
    let mut s = UsageSummary::default();
    s.thread_count = 1;
    s.current_thread = Some(ThreadUsage { id: "t".to_string(), ..ThreadUsage::default() });
    s
}

#[test]
fn live_status_constructors() {
    let on = LiveStatus::online();
    assert_eq!(on.state, "online");
    assert_eq!(on.detail, None);
    let fb = LiveStatus::fallback("down".to_string());
    assert_eq!(fb.state, "fallback");
    assert_eq!(fb.detail.as_deref(), Some("down"));
    let off = LiveStatus::offline("gone".to_string());
    assert_eq!(off.state, "offline");
    assert_eq!(off.detail.as_deref(), Some("gone"));
}

#[test]
fn has_data_cases() {
    let mut s = UsageSummary::default();
    assert!(!s.has_data());
    s.total_tokens = 1;
    assert!(s.has_data());
    let mut s = UsageSummary::default();
    s.recent_threads.push(ThreadUsage::default());
    assert!(s.has_data());
}

#[test]
fn snapshot_with_live_limits() {
    let snap = MonitorSnapshot::from_refresh(Ok(vec![1u8, 2]), summary_with_thread(), 77);
    assert_eq!(snap.source, "codex-app-server");
    assert_eq!(snap.live_status, LiveStatus::online());
    assert_eq!(snap.buckets, vec![1, 2]);
    assert_eq!(snap.message, None);
    assert_eq!(snap.fetched_at, 77);
    assert_eq!(snap.current_thread.map(|t| t.id), Some("t".to_string()));
}

#[test]
fn snapshot_falls_back_to_local_usage() {
    let snap = MonitorSnapshot::<u8>::from_refresh(Err(CodexRpcError::Timeout), summary_with_thread(), 5);
    assert_eq!(snap.source, "local-sqlite-fallback");
    assert_eq!(snap.live_status, LiveStatus::fallback("Codex app-server timed out".to_string()));
    assert!(snap.buckets.is_empty());
    assert_eq!(snap.message.as_deref(), Some("Live Codex limits are unavailable; showing local usage history."));
}

#[test]
fn snapshot_offline_without_any_data() {
    let snap = MonitorSnapshot::<u8>::from_refresh(Err(CodexRpcError::Closed), UsageSummary::default(), 5);
    assert_eq!(snap.source, "offline");
    assert_eq!(snap.live_status, LiveStatus::offline("Codex app-server closed stdout".to_string()));
    assert_eq!(snap.message.as_deref(), Some("No live Codex limits or local usage data could be read."));
    assert_eq!(snap.current_thread, None);
}

#[test]
fn muted_until_later_only() {
    assert!(!notifications_muted(None, 100));
    assert!(notifications_muted(Some(101), 100));
    assert!(!notifications_muted(Some(100), 100));
    assert!(!notifications_muted(Some(50), 100));
}

#[test]
fn each_level_is_notified_once_per_key() {
    let mut memory = NotificationMemory::new();
    let key = notification_key("codex", Some(1730947200));
    assert_eq!(key, "codex:1730947200");
    assert!(memory.observe(key.clone(), ThresholdLevel::Warning));
    assert!(!memory.observe(key.clone(), ThresholdLevel::Warning));
    assert!(memory.observe(key.clone(), ThresholdLevel::Critical));
    assert!(!memory.observe(key.clone(), ThresholdLevel::Critical));
    assert!(memory.observe(notification_key("codex", None), ThresholdLevel::Critical));
    assert!(memory.observe(key, ThresholdLevel::Warning));
}

#[test]
fn notification_keys() {
    assert_eq!(notification_key("codex", None), "codex:0");
    assert_eq!(notification_key("x", Some(-15)), "x:-15");
    assert_eq!(notification_key("x", Some(i64::MIN)), "x:-9223372036854775808");
}

#[test]
fn level_names_and_titles() {
    assert_eq!(ThresholdLevel::Warning.as_str(), "warning");
    assert_eq!(ThresholdLevel::Critical.as_str(), "critical");
    assert_eq!(ThresholdLevel::Exhausted.as_str(), "exhausted");
    assert_eq!(ThresholdLevel::Exhausted.notification_title(), "Codex limit reached");
    assert_eq!(ThresholdLevel::Critical.notification_title(), "Codex limit nearly reached");
    assert_eq!(ThresholdLevel::Warning.notification_title(), "Codex limit warning");
}

#[test]
fn reset_texts() {
    assert_eq!(format_reset(100, 100), "now");
    assert_eq!(format_reset(50, 100), "now");
    assert_eq!(format_reset(142, 100), "in 42s");
    assert_eq!(format_reset(159, 100), "in 59s");
    assert_eq!(format_reset(160, 100), "in 1m");
    assert_eq!(format_reset(100 + 3599, 100), "in 59m");
    assert_eq!(reset_phrase(None, 100), "soon");
    assert_eq!(reset_phrase(Some(130), 100), "in 30s");
}

#[test]
fn labels() {
    assert_eq!(limit_label(&Some("Weekly".to_string()), &"codex".to_string()), "Weekly");
    assert_eq!(limit_label(&None, &"codex".to_string()), "codex");
}

fn alert(id: &str, name: Option<&str>, resets_at: Option<i64>, level: Option<ThresholdLevel>) -> LimitAlert {
    LimitAlert {
        limit_id: id.to_string(),
        limit_name: name.map(|n| n.to_string()),
        resets_at,
        level,
    }
}

#[test]
fn plan_sends_each_new_level_once() {
    let alerts = vec![
        alert("codex", None, Some(1_000), Some(ThresholdLevel::Critical)),
        alert("quiet", None, None, None),
        alert("weekly", Some("Weekly"), None, Some(ThresholdLevel::Warning)),
    ];
    let mut memory = NotificationMemory::new();
    let notices = plan_notifications(&mut memory, None, 940, &alerts);
    assert_eq!(
        notices,
        vec![
            Notice { bucket: 0, level: ThresholdLevel::Critical, label: "codex".to_string(), reset: "in 1m".to_string() },
            Notice { bucket: 2, level: ThresholdLevel::Warning, label: "Weekly".to_string(), reset: "soon".to_string() },
        ]
    );
    assert!(plan_notifications(&mut memory, None, 950, &alerts).is_empty());

    let moved = vec![alert("codex", None, Some(2_000), Some(ThresholdLevel::Critical))];
    assert_eq!(plan_notifications(&mut memory, None, 950, &moved).len(), 1);
}

#[test]
fn plan_sends_nothing_while_paused() {
    let alerts = vec![alert("codex", None, None, Some(ThresholdLevel::Exhausted))];
    let mut memory = NotificationMemory::new();
    assert!(plan_notifications(&mut memory, Some(500), 100, &alerts).is_empty());
    let notices = plan_notifications(&mut memory, Some(100), 100, &alerts);
    assert_eq!(notices.len(), 1);
    assert_eq!(notices[0].level, ThresholdLevel::Exhausted);
    assert_eq!(notices[0].reset, "soon");
}
