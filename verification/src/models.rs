use vstd::prelude::*;
use vstd::string::*;

verus! {

/// Whether the live rate-limit feed answered, and why not when it did not.
#[derive(Clone, Debug, PartialEq)]
pub struct LiveStatus {
    pub state: String,
    pub detail: Option<String>,
}

impl LiveStatus {
    /// The feed answered.
    pub fn online() -> (s: Self)
        ensures
            s.state@ == "online"@,
            s.detail is None,
    {
        LiveStatus { state: String::from_str("online"), detail: None }
    }

    /// The feed failed, and local usage history is shown instead.
    pub fn fallback(detail: String) -> (s: Self)
        ensures
            s.state@ == "fallback"@,
            s.detail == Some(detail),
    {
        LiveStatus { state: String::from_str("fallback"), detail: Some(detail) }
    }

    /// Neither the feed nor local usage data could be read.
    pub fn offline(detail: String) -> (s: Self)
        ensures
            s.state@ == "offline"@,
            s.detail == Some(detail),
    {
        LiveStatus { state: String::from_str("offline"), detail: Some(detail) }
    }
}

/// Token counts summed over completed responses, by kind.
#[derive(Clone, Debug, PartialEq)]
pub struct TokenBreakdown {
    pub input: i64,
    pub output: i64,
    pub cached: i64,
    pub reasoning: i64,
    pub tool: i64,
    pub responses: i64,
}

/// The counts of a [`TokenBreakdown`] as mathematical integers.
pub struct TokenTotals {
    pub input: int,
    pub output: int,
    pub cached: int,
    pub reasoning: int,
    pub tool: int,
    pub responses: int,
}

impl View for TokenBreakdown {
    type V = TokenTotals;

    open spec fn view(&self) -> TokenTotals {
        TokenTotals {
            input: self.input as int,
            output: self.output as int,
            cached: self.cached as int,
            reasoning: self.reasoning as int,
            tool: self.tool as int,
            responses: self.responses as int,
        }
    }
}

/// All counts zero.
pub open spec fn zero_totals() -> TokenTotals {
    TokenTotals { input: 0, output: 0, cached: 0, reasoning: 0, tool: 0, responses: 0 }
}

impl Default for TokenBreakdown {
    fn default() -> (b: Self)
        ensures
            b@ == zero_totals(),
    {
        TokenBreakdown { input: 0, output: 0, cached: 0, reasoning: 0, tool: 0, responses: 0 }
    }
}

/// Tokens used by one model, over the threads that ran on it.
#[derive(Clone, Debug, Default, PartialEq)]
pub struct ModelUsage {
    pub model: String,
    pub tokens: i64,
    pub threads: i64,
}

/// One conversation thread and the tokens it used.
#[derive(Clone, Debug, Default, PartialEq)]
pub struct ThreadUsage {
    pub id: String,
    pub title: String,
    pub tokens_used: i64,
    pub model: Option<String>,
    pub reasoning_effort: Option<String>,
    pub updated_at: i64,
    pub cwd: Option<String>,
}

fn copy_opt_string(s: &Option<String>) -> (r: Option<String>)
    ensures
        r == *s,
{
    match s {
        Some(v) => Some(v.clone()),
        None => None,
    }
}

impl ThreadUsage {
    /// A field-by-field copy.
    pub fn copied(&self) -> (r: Self)
        ensures
            r == *self,
    {
        ThreadUsage {
            id: self.id.clone(),
            title: self.title.clone(),
            tokens_used: self.tokens_used,
            model: copy_opt_string(&self.model),
            reasoning_effort: copy_opt_string(&self.reasoning_effort),
            updated_at: self.updated_at,
            cwd: copy_opt_string(&self.cwd),
        }
    }
}

/// What the local usage database says about token use.
#[derive(Clone, Debug, PartialEq)]
pub struct UsageSummary {
    pub total_tokens: i64,
    pub today_tokens: i64,
    pub week_tokens: i64,
    pub thread_count: i64,
    pub today_thread_count: i64,
    pub week_thread_count: i64,
    pub current_thread: Option<ThreadUsage>,
    pub recent_threads: Vec<ThreadUsage>,
    pub model_breakdown: Vec<ModelUsage>,
    pub token_breakdown: TokenBreakdown,
    pub source_path: Option<String>,
    pub error: Option<String>,
}

impl UsageSummary {
    /// The summary holds some usage: a thread, a token, or a recent thread.
    pub open spec fn has_data_spec(&self) -> bool {
        self.thread_count > 0 || self.total_tokens > 0 || self.recent_threads@.len() > 0
    }

    /// Whether the summary holds any usage at all.
    pub fn has_data(&self) -> (r: bool)
        ensures
            r == self.has_data_spec(),
    {
        self.thread_count > 0 || self.total_tokens > 0 || !self.recent_threads.is_empty()
    }

    /// The summary of an empty database: every count zero, every list empty, nothing set.
    pub open spec fn is_empty_summary(&self) -> bool {
        &&& self.total_tokens == 0
        &&& self.today_tokens == 0
        &&& self.week_tokens == 0
        &&& self.thread_count == 0
        &&& self.today_thread_count == 0
        &&& self.week_thread_count == 0
        &&& self.current_thread is None
        &&& self.recent_threads@.len() == 0
        &&& self.model_breakdown@.len() == 0
        &&& self.token_breakdown@ == zero_totals()
        &&& self.source_path is None
        &&& self.error is None
    }
}

impl Default for UsageSummary {
    fn default() -> (s: Self)
        ensures
            s.is_empty_summary(),
    {
        UsageSummary {
            total_tokens: 0,
            today_tokens: 0,
            week_tokens: 0,
            thread_count: 0,
            today_thread_count: 0,
            week_thread_count: 0,
            current_thread: None,
            recent_threads: Vec::new(),
            model_breakdown: Vec::new(),
            token_breakdown: TokenBreakdown::default(),
            source_path: None,
            error: None,
        }
    }
}

/// What the monitor shows after one refresh. `B` is the type of a rate-limit bucket.
#[derive(Clone, Debug, PartialEq)]
pub struct MonitorSnapshot<B> {
    pub source: String,
    pub fetched_at: i64,
    pub live_status: LiveStatus,
    pub buckets: Vec<B>,
    pub usage_summary: UsageSummary,
    pub current_thread: Option<ThreadUsage>,
    pub message: Option<String>,
}

/// Tokens and threads of one day of history.
#[derive(Clone, Debug, Default, PartialEq)]
pub struct UsagePoint {
    pub label: String,
    pub tokens: i64,
    pub threads: i64,
}

/// Day-by-day usage over a range such as `"24h"`, `"7d"` or `"30d"`.
#[derive(Clone, Debug, Default, PartialEq)]
pub struct UsageHistory {
    pub range: String,
    pub points: Vec<UsagePoint>,
}

} // verus!
