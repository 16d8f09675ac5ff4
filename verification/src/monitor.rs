use vstd::prelude::*;
use vstd::string::*;

use crate::codex_rpc::CodexRpcError;
use crate::models::{LiveStatus, MonitorSnapshot, ThreadUsage, UsageSummary};
use crate::text::{
    all_digits, decimal, digits_value, lemma_decimal_reads_back, push_decimal, push_signed_decimal,
    signed_decimal, str_eq,
};

verus! {

/// Where a snapshot's rate limits came from.
pub open spec fn source_spec(live_ok: bool, has_data: bool) -> Seq<char> {
    if live_ok {
        "codex-app-server"@
    } else if has_data {
        "local-sqlite-fallback"@
    } else {
        "offline"@
    }
}

fn copy_thread(t: &Option<ThreadUsage>) -> (r: Option<ThreadUsage>)
    ensures
        r == *t,
{
    match t {
        Some(thread) => Some(thread.copied()),
        None => None,
    }
}

impl<B> MonitorSnapshot<B> {
    /// The snapshot after one refresh. With live rate limits, they are shown and the feed is
    /// online. Without them, local usage history is shown where it holds any usage (the feed is
    /// a fallback), and otherwise the monitor is offline; either way with the error's message
    /// as the status detail, no buckets, and a message for the user.
    pub fn from_refresh(
        live: Result<Vec<B>, CodexRpcError>,
        usage_summary: UsageSummary,
        fetched_at: i64,
    ) -> (s: Self)
        ensures
            s.fetched_at == fetched_at,
            s.usage_summary == usage_summary,
            s.current_thread == usage_summary.current_thread,
            s.source@ == source_spec(live is Ok, usage_summary.has_data_spec()),
            match live {
                Ok(buckets) => {
                    &&& s.buckets@ == buckets@
                    &&& s.live_status.state@ == "online"@
                    &&& s.live_status.detail is None
                    &&& s.message is None
                },
                Err(e) => {
                    &&& s.buckets@.len() == 0
                    &&& s.live_status.detail matches Some(d) && d@ == e.message_spec()
                    &&& if usage_summary.has_data_spec() {
                        &&& s.live_status.state@ == "fallback"@
                        &&& s.message matches Some(m)
                            && m@ == "Live Codex limits are unavailable; showing local usage history."@
                    } else {
                        &&& s.live_status.state@ == "offline"@
                        &&& s.message matches Some(m)
                            && m@ == "No live Codex limits or local usage data could be read."@
                    }
                },
            },
    {
        let has_data = usage_summary.has_data();
        let (source, live_status, buckets, message) = match live {
            Ok(buckets) => (String::from_str("codex-app-server"), LiveStatus::online(), buckets, None),
            Err(error) => {
                if has_data {
                    (
                        String::from_str("local-sqlite-fallback"),
                        LiveStatus::fallback(error.message()),
                        Vec::new(),
                        Some(String::from_str("Live Codex limits are unavailable; showing local usage history.")),
                    )
                } else {
                    (
                        String::from_str("offline"),
                        LiveStatus::offline(error.message()),
                        Vec::new(),
                        Some(String::from_str("No live Codex limits or local usage data could be read.")),
                    )
                }
            },
        };
        let current_thread = copy_thread(&usage_summary.current_thread);
        MonitorSnapshot {
            source,
            fetched_at,
            live_status,
            buckets,
            usage_summary,
            current_thread,
            message,
        }
    }
}

/// Whether notifications are paused at `now`: a pause is set and ends after `now`.
pub fn notifications_muted(muted_until: Option<i64>, now: i64) -> (muted: bool)
    ensures
        muted == (muted_until matches Some(until) && until > now),
{
    match muted_until {
        Some(until) => until > now,
        None => false,
    }
}

/// How close a rate limit is to being used up.
#[derive(Clone, Copy, Debug, PartialEq, Eq, Structural)]
pub enum ThresholdLevel {
    Warning,
    Critical,
    Exhausted,
}

impl ThresholdLevel {
    /// The level's name, as the notification memory keeps it.
    pub fn as_str(&self) -> (s: &'static str)
        ensures
            s@ == match self {
                ThresholdLevel::Warning => "warning"@,
                ThresholdLevel::Critical => "critical"@,
                ThresholdLevel::Exhausted => "exhausted"@,
            },
    {
        match self {
            ThresholdLevel::Warning => "warning",
            ThresholdLevel::Critical => "critical",
            ThresholdLevel::Exhausted => "exhausted",
        }
    }

    /// The title of the notification sent at this level.
    pub fn notification_title(&self) -> (s: &'static str)
        ensures
            s@ == match self {
                ThresholdLevel::Exhausted => "Codex limit reached"@,
                ThresholdLevel::Critical => "Codex limit nearly reached"@,
                ThresholdLevel::Warning => "Codex limit warning"@,
            },
    {
        match self {
            ThresholdLevel::Exhausted => "Codex limit reached",
            ThresholdLevel::Critical => "Codex limit nearly reached",
            ThresholdLevel::Warning => "Codex limit warning",
        }
    }
}

/// The key under which a notification is remembered: the limit's id, a colon, and the time the
/// limit resets (zero where unknown).
pub open spec fn notification_key_spec(limit_id: Seq<char>, resets_at: Option<i64>) -> Seq<char> {
    let reset: int = match resets_at {
        Some(t) => t as int,
        None => 0,
    };
    limit_id + ":"@ + signed_decimal(reset)
}

/// The key under which a notification for a limit is remembered.
pub fn notification_key(limit_id: &str, resets_at: Option<i64>) -> (key: String)
    ensures
        key@ == notification_key_spec(limit_id@, resets_at),
{
    let mut key = String::from_str(limit_id);
    key.append(":");
    let reset: i64 = match resets_at {
        Some(t) => t,
        None => 0,
    };
    push_signed_decimal(&mut key, reset);
    key
}

/// When a limit resets, seen from `now`: `"now"` once the time has come, else the wait in
/// whole seconds below a minute (`"in 42s"`) and in whole minutes from a minute on (`"in 5m"`).
pub open spec fn reset_text(timestamp: int, now: int) -> Seq<char> {
    if timestamp <= now {
        "now"@
    } else if timestamp - now < 60 {
        "in "@ + decimal((timestamp - now) as nat) + "s"@
    } else {
        "in "@ + decimal(((timestamp - now) / 60) as nat) + "m"@
    }
}

/// The number that a reset text gives: the value of its digits between `in ` and the unit.
pub open spec fn reset_amount(text: Seq<char>) -> nat {
    digits_value(text.subrange(3, text.len() - 1))
}

/// A reset text reads back as the wait it describes: `now` once the time has come; else `in `,
/// a run of ASCII digits and a unit, where the digits give the wait in whole seconds (unit
/// `s`) below a minute, and in whole minutes (unit `m`, the seconds divided by sixty, with no
/// wrap at the hour) from a minute on.
pub proof fn lemma_reset_text_reads_back(timestamp: int, now: int)
    ensures
        timestamp <= now ==> reset_text(timestamp, now) == seq!['n', 'o', 'w'],
        timestamp > now ==> ({
            let text = reset_text(timestamp, now);
            &&& text.len() >= 5
            &&& text.take(3) == seq!['i', 'n', ' ']
            &&& all_digits(text.subrange(3, text.len() - 1))
            &&& timestamp - now < 60 ==> text.last() == 's' && reset_amount(text) == timestamp - now
            &&& timestamp - now >= 60 ==> text.last() == 'm' && reset_amount(text) == (timestamp - now) / 60
        }),
{
    reveal_strlit("now");
    reveal_strlit("in ");
    reveal_strlit("s");
    reveal_strlit("m");
    if timestamp > now {
        let amount: nat = if timestamp - now < 60 { (timestamp - now) as nat } else { ((timestamp - now) / 60) as nat };
        let unit: char = if timestamp - now < 60 { 's' } else { 'm' };
        let d = decimal(amount);
        lemma_decimal_reads_back(amount);
        let text = reset_text(timestamp, now);
        assert(text =~= seq!['i', 'n', ' '] + d + seq![unit]);
        assert(text.subrange(3, text.len() - 1) =~= d);
        assert(text.take(3) =~= seq!['i', 'n', ' ']);
    }
}

/// The wait shown in minutes never shrinks as the reset moves further away.
pub proof fn lemma_reset_minutes_grow(now: int, earlier: int, later: int)
    requires
        now + 60 <= earlier <= later,
    ensures
        reset_amount(reset_text(earlier, now)) <= reset_amount(reset_text(later, now)),
{
    lemma_reset_text_reads_back(earlier, now);
    lemma_reset_text_reads_back(later, now);
    vstd::arithmetic::div_mod::lemma_div_is_ordered(earlier - now, later - now, 60);
}

/// When a limit resets, seen from `now`.
pub fn format_reset(timestamp: i64, now: i64) -> (s: String)
    requires
        timestamp - now <= i64::MAX,
    ensures
        s@ == reset_text(timestamp as int, now as int),
{
    if timestamp <= now {
        return String::from_str("now");
    }
    let seconds = timestamp - now;
    let mut s = String::from_str("in ");
    if seconds < 60 {
        push_decimal(&mut s, seconds as u64);
        s.append("s");
    } else {
        push_decimal(&mut s, (seconds / 60) as u64);
        s.append("m");
    }
    s
}

/// When a limit resets, or `"soon"` where the time is unknown.
pub fn reset_phrase(resets_at: Option<i64>, now: i64) -> (s: String)
    requires
        resets_at matches Some(t) ==> t - now <= i64::MAX,
    ensures
        s@ == match resets_at {
            Some(t) => reset_text(t as int, now as int),
            None => "soon"@,
        },
{
    match resets_at {
        Some(t) => format_reset(t, now),
        None => String::from_str("soon"),
    }
}

/// The name a notification gives a limit: its display name, else its id.
pub fn limit_label(limit_name: &Option<String>, limit_id: &String) -> (label: String)
    ensures
        label@ == match limit_name {
            Some(name) => name@,
            None => limit_id@,
        },
{
    match limit_name {
        Some(name) => name.clone(),
        None => limit_id.clone(),
    }
}

/// The map that a list of (key, level) entries stands for.
pub open spec fn entries_map(s: Seq<(String, ThresholdLevel)>) -> Map<Seq<char>, ThresholdLevel>
    decreases s.len(),
{
    if s.len() == 0 {
        Map::empty()
    } else {
        entries_map(s.drop_last()).insert(s.last().0@, s.last().1)
    }
}

pub open spec fn keys_distinct(s: Seq<(String, ThresholdLevel)>) -> bool {
    forall|i: int, j: int| #![trigger s[i], s[j]] 0 <= i < j < s.len() ==> s[i].0@ != s[j].0@
}

proof fn lemma_entries_lookup(s: Seq<(String, ThresholdLevel)>, i: int)
    requires
        keys_distinct(s),
        0 <= i < s.len(),
    ensures
        entries_map(s).contains_key(s[i].0@),
        entries_map(s)[s[i].0@] == s[i].1,
    decreases s.len(),
{
    if i < s.len() - 1 {
        let d = s.drop_last();
        assert(d[i] == s[i]);
        assert(keys_distinct(d)) by {
            assert forall|a: int, b: int| #![trigger d[a], d[b]] 0 <= a < b < d.len() implies d[a].0@ != d[b].0@ by {
                assert(d[a] == s[a] && d[b] == s[b]);
                assert(s[a] == s[a] && s[b] == s[b]);
            }
        }
        lemma_entries_lookup(d, i);
        assert(s[i] == s[i] && s[s.len() - 1] == s[s.len() - 1]);
    }
}

proof fn lemma_entries_absent(s: Seq<(String, ThresholdLevel)>, k: Seq<char>)
    requires
        forall|i: int| 0 <= i < s.len() ==> (#[trigger] s[i]).0@ != k,
    ensures
        !entries_map(s).contains_key(k),
    decreases s.len(),
{
    if s.len() > 0 {
        let d = s.drop_last();
        assert forall|i: int| 0 <= i < d.len() implies (#[trigger] d[i]).0@ != k by {
            assert(d[i] == s[i]);
        }
        lemma_entries_absent(d, k);
        assert(s[s.len() - 1] == s.last());
    }
}

proof fn lemma_entries_update(s: Seq<(String, ThresholdLevel)>, i: int, v: ThresholdLevel)
    requires
        keys_distinct(s),
        0 <= i < s.len(),
    ensures
        entries_map(s.update(i, (s[i].0, v))) == entries_map(s).insert(s[i].0@, v),
    decreases s.len(),
{
    let u = s.update(i, (s[i].0, v));
    let d = s.drop_last();
    if i == s.len() - 1 {
        assert(u.drop_last() =~= d);
        assert(entries_map(u) =~= entries_map(s).insert(s[i].0@, v));
    } else {
        assert(u.drop_last() =~= d.update(i, (s[i].0, v)));
        assert(d[i] == s[i]);
        assert(keys_distinct(d)) by {
            assert forall|a: int, b: int| #![trigger d[a], d[b]] 0 <= a < b < d.len() implies d[a].0@ != d[b].0@ by {
                assert(d[a] == s[a] && d[b] == s[b]);
                assert(s[a] == s[a] && s[b] == s[b]);
            }
        }
        lemma_entries_update(d, i, v);
        assert(s[i] == s[i] && s[s.len() - 1] == s[s.len() - 1]);
        assert(u.last() == s.last());
        assert(entries_map(u) =~= entries_map(s).insert(s[i].0@, v));
    }
}

/// Whether a notification at `level` for `key` is news: the memory does not hold that level
/// for that key already.
pub open spec fn is_news(memory: Map<Seq<char>, ThresholdLevel>, key: Seq<char>, level: ThresholdLevel) -> bool {
    !(memory.contains_key(key) && memory[key] == level)
}

/// The last level notified for each limit key, so that one level is notified once per reset.
pub struct NotificationMemory {
    entries: Vec<(String, ThresholdLevel)>,
}

impl View for NotificationMemory {
    type V = Map<Seq<char>, ThresholdLevel>;

    closed spec fn view(&self) -> Map<Seq<char>, ThresholdLevel> {
        entries_map(self.entries@)
    }
}

impl NotificationMemory {
    #[verifier::type_invariant]
    closed spec fn keys_unique(&self) -> bool {
        keys_distinct(self.entries@)
    }

    /// A memory that has seen nothing.
    pub fn new() -> (m: Self)
        ensures
            m@ == Map::<Seq<char>, ThresholdLevel>::empty(),
    {
        NotificationMemory { entries: Vec::new() }
    }

    /// Notes that `level` was reached for `key`, and tells whether that is news, i.e. whether a
    /// notification is due.
    pub fn observe(&mut self, key: String, level: ThresholdLevel) -> (news: bool)
        ensures
            news == is_news(old(self)@, key@, level),
            final(self)@ == old(self)@.insert(key@, level),
    {
        proof { use_type_invariant(&*self); }
        let n = self.entries.len();
        let mut i: usize = 0;
        while i < n
            invariant
                n == self.entries@.len(),
                self.entries@ == old(self).entries@,
                keys_distinct(self.entries@),
                i <= n,
                forall|j: int| 0 <= j < i ==> (#[trigger] self.entries@[j]).0@ != key@,
            decreases n - i,
        {
            if str_eq(self.entries[i].0.as_str(), key.as_str()) {
                proof { lemma_entries_lookup(self.entries@, i as int); }
                if self.entries[i].1 == level {
                    proof {
                        assert(self@.insert(key@, level) =~= self@);
                    }
                    return false;
                }
                let ghost before = self.entries@;
                let entry_key = self.entries[i].0.clone();
                let mut entries: Vec<(String, ThresholdLevel)> = Vec::new();
        std::mem::swap(&mut entries, &mut self.entries);
                entries.set(i, (entry_key, level));
                proof {
                    assert(entries@ =~= before.update(i as int, (before[i as int].0, level)));
                    lemma_entries_update(before, i as int, level);
                    assert(keys_distinct(entries@)) by {
                        assert forall|a: int, b: int| #![trigger entries@[a], entries@[b]] 0 <= a < b < entries@.len()
                            implies entries@[a].0@ != entries@[b].0@ by {
                            assert(entries@[a].0 == before[a].0 && entries@[b].0 == before[b].0);
                            assert(before[a] == before[a] && before[b] == before[b]);
                        }
                    }
                }
                self.entries = entries;
                return true;
            }
            i = i + 1;
        }
        proof { lemma_entries_absent(self.entries@, key@); }
        let ghost before = self.entries@;
        let mut entries: Vec<(String, ThresholdLevel)> = Vec::new();
        std::mem::swap(&mut entries, &mut self.entries);
        entries.push((key, level));
        proof {
            assert(entries@.drop_last() =~= before);
            assert(keys_distinct(entries@)) by {
                assert forall|a: int, b: int| #![trigger entries@[a], entries@[b]] 0 <= a < b < entries@.len()
                    implies entries@[a].0@ != entries@[b].0@ by {
                    if b == before.len() {
                        assert(entries@[a] == before[a]);
                    } else {
                        assert(entries@[a] == before[a] && entries@[b] == before[b]);
                        assert(before[a] == before[a] && before[b] == before[b]);
                    }
                }
            }
        }
        self.entries = entries;
        true
    }
}

/// Once a level is noted for a key, noting it again is not news; noting another level is.
pub proof fn lemma_notified_once(
    memory: Map<Seq<char>, ThresholdLevel>,
    key: Seq<char>,
    level: ThresholdLevel,
    next: ThresholdLevel,
)
    ensures
        !is_news(memory.insert(key, level), key, level),
        is_news(memory.insert(key, level), key, next) == (next != level),
{
}


/// One rate limit as the notifier sees it: its id, its display name, when it resets, and the
/// threshold level that its usage has reached, if any.
#[derive(Clone, Debug, PartialEq)]
pub struct LimitAlert {
    pub limit_id: String,
    pub limit_name: Option<String>,
    pub resets_at: Option<i64>,
    pub level: Option<ThresholdLevel>,
}

/// A notification to send: for the limit at place `bucket`, at `level`, naming the limit by
/// `label` and saying when it resets by `reset`.
#[derive(Clone, Debug, PartialEq)]
pub struct Notice {
    pub bucket: usize,
    pub level: ThresholdLevel,
    pub label: String,
    pub reset: String,
}

/// The characters of a list of notices.
pub open spec fn notices_view(ns: Seq<Notice>) -> Seq<(int, ThresholdLevel, Seq<char>, Seq<char>)> {
    ns.map_values(|n: Notice| (n.bucket as int, n.level, n.label@, n.reset@))
}

/// The name a notification gives a limit.
pub open spec fn label_spec(a: LimitAlert) -> Seq<char> {
    match a.limit_name {
        Some(name) => name@,
        None => a.limit_id@,
    }
}

/// When a limit resets, as a notification says it.
pub open spec fn reset_phrase_spec(resets_at: Option<i64>, now: int) -> Seq<char> {
    match resets_at {
        Some(t) => reset_text(t as int, now),
        None => "soon"@,
    }
}

/// The memory and the notices after going through the alerts in turn: an alert with a level
/// whose key does not hold that level yet is noted and gives a notice; the others are passed
/// over.
pub open spec fn plan_spec(
    memory: Map<Seq<char>, ThresholdLevel>,
    alerts: Seq<LimitAlert>,
    now: int,
) -> (Map<Seq<char>, ThresholdLevel>, Seq<(int, ThresholdLevel, Seq<char>, Seq<char>)>)
    decreases alerts.len(),
{
    if alerts.len() == 0 {
        (memory, Seq::empty())
    } else {
        let (m, ns) = plan_spec(memory, alerts.drop_last(), now);
        let a = alerts.last();
        match a.level {
            None => (m, ns),
            Some(level) => {
                let key = notification_key_spec(a.limit_id@, a.resets_at);
                if is_news(m, key, level) {
                    (
                        m.insert(key, level),
                        ns.push(((alerts.len() - 1) as int, level, label_spec(a), reset_phrase_spec(a.resets_at, now))),
                    )
                } else {
                    (m, ns)
                }
            },
        }
    }
}

/// The notifications due after a refresh: none while notifications are paused (and then the
/// memory is left as it was); otherwise one for each limit that reached a level not yet noted
/// for it since its last reset, in the order of the limits.
pub fn plan_notifications(
    memory: &mut NotificationMemory,
    muted_until: Option<i64>,
    now: i64,
    alerts: &Vec<LimitAlert>,
) -> (notices: Vec<Notice>)
    requires
        forall|i: int| 0 <= i < alerts@.len() ==> ((#[trigger] alerts@[i]).resets_at matches Some(t) ==> t - now <= i64::MAX),
    ensures
        if muted_until matches Some(until) && until > now {
            &&& notices@.len() == 0
            &&& final(memory)@ == old(memory)@
        } else {
            (final(memory)@, notices_view(notices@)) == plan_spec(old(memory)@, alerts@, now as int)
        },
{
    let mut notices: Vec<Notice> = Vec::new();
    if notifications_muted(muted_until, now) {
        return notices;
    }
    let ghost start = memory@;
    let n = alerts.len();
    let mut i: usize = 0;
    assert(alerts@.take(0) =~= Seq::<LimitAlert>::empty());
    assert(notices_view(notices@) =~= Seq::<(int, ThresholdLevel, Seq<char>, Seq<char>)>::empty());
    while i < n
        invariant
            n == alerts@.len(),
            i <= n,
            forall|j: int| 0 <= j < alerts@.len() ==> ((#[trigger] alerts@[j]).resets_at matches Some(t) ==> t - now <= i64::MAX),
            (memory@, notices_view(notices@)) == plan_spec(start, alerts@.take(i as int), now as int),
        decreases n - i,
    {
        let alert = &alerts[i];
        proof {
            assert(alerts@.take(i + 1).drop_last() =~= alerts@.take(i as int));
            assert(alerts@.take(i + 1).last() == alerts@[i as int]);
        }
        if let Some(level) = alert.level {
            let key = notification_key(alert.limit_id.as_str(), alert.resets_at);
            if memory.observe(key, level) {
                let ghost before = notices@;
                notices.push(Notice {
                    bucket: i,
                    level,
                    label: limit_label(&alert.limit_name, &alert.limit_id),
                    reset: reset_phrase(alert.resets_at, now),
                });
                assert(notices_view(notices@) =~= notices_view(before).push(
                    (i as int, level, label_spec(*alert), reset_phrase_spec(alert.resets_at, now as int)),
                ));
            }
        }
        i = i + 1;
    }
    assert(alerts@.take(n as int) =~= alerts@);
    notices
}


/// The alerts that carry a level have pairwise different keys.
pub open spec fn alert_keys_distinct(alerts: Seq<LimitAlert>) -> bool {
    forall|i: int, j: int| #![trigger alerts[i], alerts[j]]
        0 <= i < j < alerts.len() && alerts[i].level is Some && alerts[j].level is Some
            ==> notification_key_spec(alerts[i].limit_id@, alerts[i].resets_at)
                != notification_key_spec(alerts[j].limit_id@, alerts[j].resets_at)
}

/// Every alert that carries a level has that level noted under its key.
pub open spec fn alerts_noted(memory: Map<Seq<char>, ThresholdLevel>, alerts: Seq<LimitAlert>) -> bool {
    forall|i: int| 0 <= i < alerts.len() && (#[trigger] alerts[i]).level is Some ==> {
        let key = notification_key_spec(alerts[i].limit_id@, alerts[i].resets_at);
        memory.contains_key(key) && memory[key] == alerts[i].level->0
    }
}

proof fn lemma_plan_notes_alerts(memory: Map<Seq<char>, ThresholdLevel>, alerts: Seq<LimitAlert>, now: int)
    requires
        alert_keys_distinct(alerts),
    ensures
        alerts_noted(plan_spec(memory, alerts, now).0, alerts),
    decreases alerts.len(),
{
    if alerts.len() > 0 {
        let d = alerts.drop_last();
        assert(alert_keys_distinct(d)) by {
            assert forall|i: int, j: int| #![trigger d[i], d[j]]
                0 <= i < j < d.len() && d[i].level is Some && d[j].level is Some implies
                notification_key_spec(d[i].limit_id@, d[i].resets_at)
                    != notification_key_spec(d[j].limit_id@, d[j].resets_at) by {
                assert(d[i] == alerts[i] && d[j] == alerts[j]);
                assert(alerts[i] == alerts[i] && alerts[j] == alerts[j]);
            }
        }
        lemma_plan_notes_alerts(memory, d, now);
        let last = alerts.len() - 1;
        assert forall|i: int| 0 <= i < alerts.len() && (#[trigger] alerts[i]).level is Some implies {
            let key = notification_key_spec(alerts[i].limit_id@, alerts[i].resets_at);
            let m = plan_spec(memory, alerts, now).0;
            m.contains_key(key) && m[key] == alerts[i].level->0
        } by {
            if i < last {
                assert(d[i] == alerts[i]);
                if alerts[last].level is Some {
                    assert(alerts[i] == alerts[i] && alerts[last] == alerts[last]);
                }
            }
        }
    }
}

proof fn lemma_plan_quiet(memory: Map<Seq<char>, ThresholdLevel>, alerts: Seq<LimitAlert>, now: int)
    requires
        alerts_noted(memory, alerts),
    ensures
        plan_spec(memory, alerts, now) == (memory, Seq::<(int, ThresholdLevel, Seq<char>, Seq<char>)>::empty()),
    decreases alerts.len(),
{
    if alerts.len() > 0 {
        let d = alerts.drop_last();
        assert(alerts_noted(memory, d)) by {
            assert forall|i: int| 0 <= i < d.len() && (#[trigger] d[i]).level is Some implies {
                let key = notification_key_spec(d[i].limit_id@, d[i].resets_at);
                memory.contains_key(key) && memory[key] == d[i].level->0
            } by {
                assert(d[i] == alerts[i]);
            }
        }
        lemma_plan_quiet(memory, d, now);
        assert(alerts[alerts.len() - 1] == alerts.last());
    }
}

/// Going through the same alerts a second time sends nothing and changes nothing, where the
/// alerts with a level have different keys: each level is notified once per limit and reset.
pub proof fn lemma_second_pass_quiet(memory: Map<Seq<char>, ThresholdLevel>, alerts: Seq<LimitAlert>, now: int)
    requires
        alert_keys_distinct(alerts),
    ensures
        ({
            let first = plan_spec(memory, alerts, now).0;
            plan_spec(first, alerts, now) == (first, Seq::<(int, ThresholdLevel, Seq<char>, Seq<char>)>::empty())
        }),
{
    lemma_plan_notes_alerts(memory, alerts, now);
    lemma_plan_quiet(plan_spec(memory, alerts, now).0, alerts, now);
}

} // verus!
