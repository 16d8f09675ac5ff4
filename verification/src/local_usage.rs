use vstd::prelude::*;
use vstd::string::*;

use crate::models::{zero_totals, ModelUsage, ThreadUsage, TokenBreakdown, TokenTotals, UsageSummary};
use crate::text::str_eq;
use crate::token_log::{counts_view, token_count_values, token_counts, TokenKind};

verus! {

/// The sum of the counts of one kind.
pub open spec fn kind_sum(counts: Seq<(TokenKind, int)>, kind: TokenKind) -> int
    decreases counts.len(),
{
    if counts.len() == 0 {
        0
    } else {
        kind_sum(counts.drop_last(), kind) + if counts.last().0 == kind {
            counts.last().1
        } else {
            0
        }
    }
}

/// The totals after adding every count to its kind, before the response is counted.
pub open spec fn with_counts(t: TokenTotals, counts: Seq<(TokenKind, int)>) -> TokenTotals {
    TokenTotals {
        input: t.input + kind_sum(counts, TokenKind::Input),
        output: t.output + kind_sum(counts, TokenKind::Output),
        cached: t.cached + kind_sum(counts, TokenKind::Cached),
        reasoning: t.reasoning + kind_sum(counts, TokenKind::Reasoning),
        tool: t.tool + kind_sum(counts, TokenKind::Tool),
        responses: t.responses,
    }
}

/// The totals after one response body: every count added to its kind, and the response
/// counted when it logged at least one count.
pub open spec fn after_response(t: TokenTotals, counts: Seq<(TokenKind, int)>) -> TokenTotals {
    let c = with_counts(t, counts);
    TokenTotals { responses: t.responses + if counts.len() > 0 { 1int } else { 0int }, ..c }
}

pub open spec fn fits_i64(x: int) -> bool {
    i64::MIN <= x && x <= i64::MAX
}

pub open spec fn totals_fit(t: TokenTotals) -> bool {
    &&& fits_i64(t.input)
    &&& fits_i64(t.output)
    &&& fits_i64(t.cached)
    &&& fits_i64(t.reasoning)
    &&& fits_i64(t.tool)
    &&& fits_i64(t.responses)
}

/// Adding the counts one by one never leaves the range of `i64`.
pub open spec fn counts_fit(t: TokenTotals, counts: Seq<(TokenKind, int)>) -> bool {
    &&& forall|k: int| 0 <= k <= counts.len() ==> totals_fit(#[trigger] with_counts(t, counts.take(k)))
    &&& totals_fit(after_response(t, counts))
}

fn add_to(total: i64, count: i64) -> (r: i64)
    requires
        fits_i64(total + count),
    ensures
        r == total + count,
{
    total + count
}

proof fn lemma_step(start: TokenTotals, all: Seq<(TokenKind, int)>, i: int)
    requires
        0 <= i < all.len(),
    ensures
        ({
            let before = with_counts(start, all.take(i));
            let after = with_counts(start, all.take(i + 1));
            let (k, c) = all[i];
            &&& after.input == before.input + if k == TokenKind::Input { c } else { 0 }
            &&& after.output == before.output + if k == TokenKind::Output { c } else { 0 }
            &&& after.cached == before.cached + if k == TokenKind::Cached { c } else { 0 }
            &&& after.reasoning == before.reasoning + if k == TokenKind::Reasoning { c } else { 0 }
            &&& after.tool == before.tool + if k == TokenKind::Tool { c } else { 0 }
            &&& after.responses == before.responses
        }),
{
    let t1 = all.take(i + 1);
    assert(t1.drop_last() =~= all.take(i));
    assert(t1.last() == all[i]);
}

/// Adds the (kind, count) pairs that one response body logged to `breakdown`, and counts the
/// response where there is at least one.
pub fn add_token_counts(breakdown: &mut TokenBreakdown, counts: &Vec<(TokenKind, i64)>)
    requires
        counts_fit(old(breakdown)@, counts_view(counts@)),
    ensures
        final(breakdown)@ == after_response(old(breakdown)@, counts_view(counts@)),
{
    let ghost start = breakdown@;
    let ghost all = counts_view(counts@);
    let n = counts.len();
    let mut i: usize = 0;
    assert(all.take(0) =~= Seq::<(TokenKind, int)>::empty());
    while i < n
        invariant
            n == counts@.len(),
            all == counts_view(counts@),
            i <= n,
            counts_fit(start, all),
            breakdown@ == with_counts(start, all.take(i as int)),
        decreases n - i,
    {
        let (kind, count) = counts[i];
        proof {
            lemma_step(start, all, i as int);
            assert(all[i as int] == (kind, count as int));
            assert(totals_fit(with_counts(start, all.take(i + 1))));
        }
        match kind {
            TokenKind::Input => breakdown.input = add_to(breakdown.input, count),
            TokenKind::Output => breakdown.output = add_to(breakdown.output, count),
            TokenKind::Cached => breakdown.cached = add_to(breakdown.cached, count),
            TokenKind::Reasoning => breakdown.reasoning = add_to(breakdown.reasoning, count),
            TokenKind::Tool => breakdown.tool = add_to(breakdown.tool, count),
        }
        i = i + 1;
    }
    assert(all.take(n as int) =~= all);
    if n > 0 {
        breakdown.responses = breakdown.responses + 1;
    }
}

fn in_i64(x: i128) -> (r: bool)
    ensures
        r == fits_i64(x as int),
{
    -9_223_372_036_854_775_808i128 <= x && x <= 9_223_372_036_854_775_807i128
}

/// Whether adding the counts to `breakdown` keeps every count inside the range of `i64`.
pub fn counts_fit_in(breakdown: &TokenBreakdown, counts: &Vec<(TokenKind, i64)>) -> (ok: bool)
    ensures
        ok == counts_fit(breakdown@, counts_view(counts@)),
{
    let ghost start = breakdown@;
    let ghost all = counts_view(counts@);
    let n = counts.len();
    let mut input: i128 = breakdown.input as i128;
    let mut output: i128 = breakdown.output as i128;
    let mut cached: i128 = breakdown.cached as i128;
    let mut reasoning: i128 = breakdown.reasoning as i128;
    let mut tool: i128 = breakdown.tool as i128;
    assert(all.take(0) =~= Seq::<(TokenKind, int)>::empty());
    let mut i: usize = 0;
    while i < n
        invariant
            n == counts@.len(),
            all == counts_view(counts@),
            start == breakdown@,
            i <= n,
            forall|k: int| 0 <= k <= i ==> totals_fit(#[trigger] with_counts(start, all.take(k))),
            ({
                let t = with_counts(start, all.take(i as int));
                &&& input == t.input
                &&& output == t.output
                &&& cached == t.cached
                &&& reasoning == t.reasoning
                &&& tool == t.tool
            }),
        decreases n - i,
    {
        let (kind, count) = counts[i];
        proof {
            lemma_step(start, all, i as int);
            assert(all[i as int] == (kind, count as int));
        }
        match kind {
            TokenKind::Input => input = input + count as i128,
            TokenKind::Output => output = output + count as i128,
            TokenKind::Cached => cached = cached + count as i128,
            TokenKind::Reasoning => reasoning = reasoning + count as i128,
            TokenKind::Tool => tool = tool + count as i128,
        }
        if !(in_i64(input) && in_i64(output) && in_i64(cached) && in_i64(reasoning) && in_i64(tool)) {
            assert(!totals_fit(with_counts(start, all.take(i + 1))));
            return false;
        }
        i = i + 1;
    }
    assert(all.take(n as int) =~= all);
    if n > 0 {
        breakdown.responses < 9_223_372_036_854_775_807i64
    } else {
        true
    }
}

/// Adds the token counts that a completed response logged in `body` to `breakdown`, and
/// counts the response when it logged at least one.
pub fn add_response_tokens(breakdown: &mut TokenBreakdown, body: &str)
    requires
        counts_fit(old(breakdown)@, token_count_values(body@)),
    ensures
        final(breakdown)@ == after_response(old(breakdown)@, token_count_values(body@)),
{
    let counts = token_counts(body);
    add_token_counts(breakdown, &counts);
}

/// Adds the token counts of `body` as [`add_response_tokens`] does where no count leaves the
/// range of `i64`, and reports whether it did; where one would, `breakdown` stays as it was.
pub fn try_add_response_tokens(breakdown: &mut TokenBreakdown, body: &str) -> (added: bool)
    ensures
        added == counts_fit(old(breakdown)@, token_count_values(body@)),
        added ==> final(breakdown)@ == after_response(old(breakdown)@, token_count_values(body@)),
        !added ==> *final(breakdown) == *old(breakdown),
{
    let counts = token_counts(body);
    if counts_fit_in(breakdown, &counts) {
        add_token_counts(breakdown, &counts);
        true
    } else {
        false
    }
}

/// The texts of a list of optional response bodies.
pub open spec fn bodies_view(bodies: Seq<Option<String>>) -> Seq<Option<Seq<char>>> {
    bodies.map_values(|b: Option<String>| match b {
        Some(s) => Some(s@),
        None => None,
    })
}

/// The totals after adding the bodies in turn to zero totals, skipping missing bodies; `None`
/// where some count would leave the range of `i64` on the way.
pub open spec fn totals_after_bodies(bodies: Seq<Option<Seq<char>>>) -> Option<TokenTotals>
    decreases bodies.len(),
{
    if bodies.len() == 0 {
        Some(zero_totals())
    } else {
        match totals_after_bodies(bodies.drop_last()) {
            None => None,
            Some(t) => match bodies.last() {
                None => Some(t),
                Some(text) => {
                    let counts = token_count_values(text);
                    if counts_fit(t, counts) {
                        Some(after_response(t, counts))
                    } else {
                        None
                    }
                },
            },
        }
    }
}

proof fn lemma_overflow_persists(bodies: Seq<Option<Seq<char>>>, k: int)
    requires
        0 <= k <= bodies.len(),
        totals_after_bodies(bodies.take(k)) is None,
    ensures
        totals_after_bodies(bodies) is None,
    decreases bodies.len(),
{
    if k < bodies.len() {
        assert(bodies.drop_last().take(k) =~= bodies.take(k));
        lemma_overflow_persists(bodies.drop_last(), k);
    } else {
        assert(bodies.take(k) =~= bodies);
    }
}

/// The token breakdown of the logged bodies of completed responses, as read from the log
/// database; `None` where a count would leave the range of `i64`.
pub fn token_breakdown_from_bodies(bodies: &Vec<Option<String>>) -> (r: Option<TokenBreakdown>)
    ensures
        match totals_after_bodies(bodies_view(bodies@)) {
            Some(t) => r is Some && r.unwrap()@ == t,
            None => r is None,
        },
{
    let ghost all = bodies_view(bodies@);
    let mut breakdown = TokenBreakdown::default();
    let n = bodies.len();
    assert(all.take(0) =~= Seq::<Option<Seq<char>>>::empty());
    let mut i: usize = 0;
    while i < n
        invariant
            n == bodies@.len(),
            all == bodies_view(bodies@),
            i <= n,
            totals_after_bodies(all.take(i as int)) == Some(breakdown@),
        decreases n - i,
    {
        proof {
            assert(all.take(i + 1).drop_last() =~= all.take(i as int));
            assert(all.take(i + 1).last() == all[i as int]);
        }
        match &bodies[i] {
            Some(text) => {
                if !try_add_response_tokens(&mut breakdown, text.as_str()) {
                    proof {
                        lemma_overflow_persists(all, i + 1);
                    }
                    return None;
                }
            },
            None => {},
        }
        i = i + 1;
    }
    assert(all.take(n as int) =~= all);
    Some(breakdown)
}

/// Adding two response bodies gives the same totals in either order.
pub proof fn lemma_body_order_irrelevant(t: TokenTotals, first: Seq<char>, second: Seq<char>)
    ensures
        after_response(after_response(t, token_count_values(first)), token_count_values(second))
            == after_response(after_response(t, token_count_values(second)), token_count_values(first)),
{
}

/// A body that logs no token count leaves the totals as they were; it is not counted as a
/// response either.
pub proof fn lemma_body_without_counts(t: TokenTotals, text: Seq<char>)
    requires
        token_count_values(text).len() == 0,
    ensures
        after_response(t, token_count_values(text)) == t,
{
    let counts = token_count_values(text);
    assert(kind_sum(counts, TokenKind::Input) == 0);
    assert(kind_sum(counts, TokenKind::Output) == 0);
    assert(kind_sum(counts, TokenKind::Cached) == 0);
    assert(kind_sum(counts, TokenKind::Reasoning) == 0);
    assert(kind_sum(counts, TokenKind::Tool) == 0);
}

proof fn lemma_totals_fit_after_bodies(bodies: Seq<Option<Seq<char>>>)
    ensures
        totals_after_bodies(bodies) matches Some(t) ==> totals_fit(t),
    decreases bodies.len(),
{
    if bodies.len() > 0 {
        lemma_totals_fit_after_bodies(bodies.drop_last());
    }
}

/// Each body is added in its turn, whatever came before it: the totals of `bodies` followed by
/// one more body are the totals of `bodies` with that body's counts added (where they fit), and
/// a missing body adds nothing.
pub proof fn lemma_each_body_added(bodies: Seq<Option<Seq<char>>>, next: Option<Seq<char>>)
    ensures
        totals_after_bodies(bodies.push(next)) == match totals_after_bodies(bodies) {
            None => None,
            Some(t) => match next {
                None => Some(t),
                Some(text) => if counts_fit(t, token_count_values(text)) {
                    Some(after_response(t, token_count_values(text)))
                } else {
                    None
                },
            },
        },
{
    assert(bodies.push(next).drop_last() =~= bodies);
}

/// A body that logs no count changes nothing wherever it stands among the bodies: the bodies
/// after it are counted as if it were not there.
pub proof fn lemma_countless_body_ignored(
    before: Seq<Option<Seq<char>>>,
    text: Seq<char>,
    after: Seq<Option<Seq<char>>>,
)
    requires
        token_count_values(text).len() == 0,
    ensures
        totals_after_bodies(before + seq![Some(text)] + after) == totals_after_bodies(before + after),
    decreases after.len(),
{
    let with = before + seq![Some(text)] + after;
    let without = before + after;
    if after.len() == 0 {
        assert(with.drop_last() =~= before);
        assert(with.last() == Some(text));
        assert(without =~= before);
        lemma_totals_fit_after_bodies(before);
        let counts = token_count_values(text);
        if let Some(t) = totals_after_bodies(before) {
            lemma_body_without_counts(t, text);
            assert(with_counts(t, counts) == t);
            assert forall|k: int| 0 <= k <= counts.len() implies totals_fit(#[trigger] with_counts(t, counts.take(k))) by {
                assert(counts.take(k) =~= counts);
            }
            assert(counts_fit(t, counts));
        }
    } else {
        lemma_countless_body_ignored(before, text, after.drop_last());
        assert(with.drop_last() =~= before + seq![Some(text)] + after.drop_last());
        assert(without.drop_last() =~= before + after.drop_last());
        assert(with.last() == after.last());
        assert(without.last() == after.last());
    }
}

/// Why the local usage database could not be read.
#[derive(Clone, Debug, PartialEq)]
pub enum LocalUsageError {
    /// The state database does not exist at the path given.
    MissingStateDb(String),
    /// SQLite failed, with its message.
    Sqlite(String),
}

impl LocalUsageError {
    /// The text that the error shows.
    pub open spec fn message_spec(&self) -> Seq<char> {
        match self {
            LocalUsageError::MissingStateDb(path) => "Codex state database was not found at "@ + path@,
            LocalUsageError::Sqlite(detail) => "SQLite error: "@ + detail@,
        }
    }

    /// The text that the error shows.
    pub fn message(&self) -> (m: String)
        ensures
            m@ == self.message_spec(),
    {
        match self {
            LocalUsageError::MissingStateDb(path) => {
                let mut m = String::from_str("Codex state database was not found at ");
                m.append(path.as_str());
                m
            },
            LocalUsageError::Sqlite(detail) => {
                let mut m = String::from_str("SQLite error: ");
                m.append(detail.as_str());
                m
            },
        }
    }
}

/// Seconds in a day.
pub const SECONDS_PER_DAY: i64 = 86_400;

/// The number of days that a history range covers: one for `"24h"`, thirty for `"30d"`,
/// seven for anything else.
pub open spec fn range_days(range: Seq<char>) -> int {
    if range == "24h"@ {
        1
    } else if range == "30d"@ {
        30
    } else {
        7
    }
}

/// The number of days that a history range covers.
pub fn history_days(range: &str) -> (days: i64)
    ensures
        days == range_days(range@),
{
    if str_eq(range, "24h") {
        1
    } else if str_eq(range, "30d") {
        30
    } else {
        7
    }
}

/// The first second of the history window that ends at `now`.
pub fn history_window_start(now: i64, range: &str) -> (since: i64)
    requires
        now - range_days(range@) * 86_400 >= i64::MIN,
    ensures
        since == now - range_days(range@) * 86_400,
{
    let days = history_days(range);
    now - days * SECONDS_PER_DAY
}

/// The first second of the week that ends at `now`.
pub fn week_window_start(now: i64) -> (since: i64)
    requires
        now - 7 * 86_400 >= i64::MIN,
    ensures
        since == now - 7 * 86_400,
{
    now - 7 * SECONDS_PER_DAY
}

/// The title shown for a thread: its stored title, or `"Untitled"` where none could be read.
pub fn thread_title(title: Option<String>) -> (t: String)
    ensures
        t@ == match title {
            Some(s) => s@,
            None => "Untitled"@,
        },
{
    match title {
        Some(s) => s,
        None => String::from_str("Untitled"),
    }
}

/// The summary built from the database's answers: the totals, counts and lists as read, the
/// most recently updated thread as the current one, and no error.
pub fn summary_from_queries(
    all: (i64, i64),
    today: (i64, i64),
    week: (i64, i64),
    recent_threads: Vec<ThreadUsage>,
    model_breakdown: Vec<ModelUsage>,
    token_breakdown: Option<TokenBreakdown>,
    source_path: String,
) -> (s: UsageSummary)
    ensures
        s.total_tokens == all.0 && s.thread_count == all.1,
        s.today_tokens == today.0 && s.today_thread_count == today.1,
        s.week_tokens == week.0 && s.week_thread_count == week.1,
        s.current_thread == (if recent_threads@.len() > 0 {
            Some(recent_threads@[0])
        } else {
            None::<ThreadUsage>
        }),
        s.recent_threads@ == recent_threads@,
        s.model_breakdown@ == model_breakdown@,
        s.token_breakdown@ == match token_breakdown {
            Some(b) => b@,
            None => zero_totals(),
        },
        s.source_path == Some(source_path),
        s.error is None,
{
    let current_thread = if recent_threads.len() > 0 {
        Some(recent_threads[0].copied())
    } else {
        None
    };
    let token_breakdown = match token_breakdown {
        Some(b) => b,
        None => TokenBreakdown::default(),
    };
    UsageSummary {
        total_tokens: all.0,
        today_tokens: today.0,
        week_tokens: week.0,
        thread_count: all.1,
        today_thread_count: today.1,
        week_thread_count: week.1,
        current_thread,
        recent_threads,
        model_breakdown,
        token_breakdown,
        source_path: Some(source_path),
        error: None,
    }
}

/// The summary that stands in for one that could not be read: empty, with the Codex home as
/// its source and the error's message.
fn failed_summary(codex_home: String, error: &LocalUsageError) -> (s: UsageSummary)
    ensures
        s.source_path == Some(codex_home),
        s.error matches Some(m) && m@ == error.message_spec(),
        s.total_tokens == 0 && s.today_tokens == 0 && s.week_tokens == 0,
        s.thread_count == 0 && s.today_thread_count == 0 && s.week_thread_count == 0,
        s.current_thread is None,
        s.recent_threads@.len() == 0,
        s.model_breakdown@.len() == 0,
        s.token_breakdown@ == zero_totals(),
{
    let mut s = UsageSummary::default();
    s.source_path = Some(codex_home);
    s.error = Some(error.message());
    s
}

/// The summary that the monitor shows: the one read, or the failed one where reading failed.
pub fn summary_or_failure(read: Result<UsageSummary, LocalUsageError>, codex_home: String) -> (s: UsageSummary)
    ensures
        match read {
            Ok(summary) => s == summary,
            Err(e) => {
                &&& s.source_path == Some(codex_home)
                &&& s.error matches Some(m) && m@ == e.message_spec()
                &&& s.total_tokens == 0 && s.today_tokens == 0 && s.week_tokens == 0
                &&& s.thread_count == 0 && s.today_thread_count == 0 && s.week_thread_count == 0
                &&& s.current_thread is None
                &&& s.recent_threads@.len() == 0
                &&& s.model_breakdown@.len() == 0
                &&& s.token_breakdown@ == zero_totals()
            },
        },
{
    match read {
        Ok(summary) => summary,
        Err(e) => failed_summary(codex_home, &e),
    }
}

} // verus!
