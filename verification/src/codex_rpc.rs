use vstd::prelude::*;
use vstd::relations::injective_on;
use vstd::set_lib::{lemma_int_range, lemma_map_size, lemma_subset_equality, set_int_range};
use vstd::string::*;

verus! {

/// Strict order of strings as `Ord` for `str` orders them: lexicographic, compared by code
/// point (the order of the UTF-8 bytes), a proper prefix first.
pub open spec fn chars_lt(a: Seq<char>, b: Seq<char>) -> bool
    decreases a.len(),
{
    if a.len() == 0 {
        b.len() > 0
    } else if b.len() == 0 {
        false
    } else if a[0] != b[0] {
        (a[0] as int) < (b[0] as int)
    } else {
        chars_lt(a.drop_first(), b.drop_first())
    }
}

proof fn lemma_chars_lt_irreflexive(a: Seq<char>)
    ensures
        !chars_lt(a, a),
    decreases a.len(),
{
    if a.len() > 0 {
        lemma_chars_lt_irreflexive(a.drop_first());
    }
}

proof fn lemma_chars_lt_transitive(a: Seq<char>, b: Seq<char>, c: Seq<char>)
    requires
        chars_lt(a, b),
        chars_lt(b, c),
    ensures
        chars_lt(a, c),
    decreases a.len(),
{
    if a.len() > 0 && b.len() > 0 && c.len() > 0 {
        if a[0] == b[0] && b[0] == c[0] {
            lemma_chars_lt_transitive(a.drop_first(), b.drop_first(), c.drop_first());
        }
    }
}

proof fn lemma_chars_lt_total(a: Seq<char>, b: Seq<char>)
    ensures
        a == b || chars_lt(a, b) || chars_lt(b, a),
    decreases a.len(),
{
    if a.len() > 0 && b.len() > 0 {
        if a[0] == b[0] {
            lemma_chars_lt_total(a.drop_first(), b.drop_first());
            if a.drop_first() == b.drop_first() {
                assert(a =~= seq![a[0]] + a.drop_first());
                assert(b =~= seq![b[0]] + b.drop_first());
            }
        } else {
            assert((a[0] as int) != (b[0] as int));
        }
    } else if a.len() == 0 && b.len() == 0 {
        assert(a =~= b);
    }
}

proof fn lemma_chars_lt_asymmetric(a: Seq<char>, b: Seq<char>)
    requires
        chars_lt(a, b),
    ensures
        !chars_lt(b, a),
{
    if chars_lt(b, a) {
        lemma_chars_lt_transitive(a, b, a);
        lemma_chars_lt_irreflexive(a);
    }
}

/// Whether `a` orders strictly before `b`.
pub fn str_lt(a: &str, b: &str) -> (r: bool)
    ensures
        r == chars_lt(a@, b@),
{
    let n = a.unicode_len();
    let m = b.unicode_len();
    let mut i: usize = 0;
    assert(a@.skip(0) =~= a@);
    assert(b@.skip(0) =~= b@);
    while i < n && i < m
        invariant
            n == a@.len(),
            m == b@.len(),
            i <= n,
            i <= m,
            forall|j: int| 0 <= j < i ==> a@[j] == b@[j],
            chars_lt(a@, b@) == chars_lt(a@.skip(i as int), b@.skip(i as int)),
        decreases n - i,
    {
        let x = a.get_char(i);
        let y = b.get_char(i);
        if x != y {
            return (x as u32) < (y as u32);
        }
        proof {
            assert(a@.skip(i as int).drop_first() =~= a@.skip(i + 1));
            assert(b@.skip(i as int).drop_first() =~= b@.skip(i + 1));
        }
        i = i + 1;
    }
    i == n && i < m
}


/// `out` holds the items of `items` sorted by their keys (the strings), items with equal keys
/// in the order they had; `p` names, for each place of `out`, the place in `items` its item
/// came from.
pub open spec fn arranges<T>(items: Seq<(String, T)>, out: Seq<(String, T)>, p: Seq<int>) -> bool {
    &&& out.len() == items.len()
    &&& p.len() == items.len()
    &&& forall|i: int| 0 <= i < p.len() ==> 0 <= #[trigger] p[i] < items.len() && out[i] == items[p[i]]
    &&& forall|i: int, j: int| #![trigger p[i], p[j]] 0 <= i < j < p.len() ==> p[i] != p[j]
    &&& forall|i: int, j: int| #![trigger out[i], out[j]] 0 <= i < j < out.len() ==> !chars_lt(out[j].0@, out[i].0@)
    &&& forall|i: int, j: int| #![trigger out[i], out[j]]
        0 <= i < j < out.len() && out[i].0@ == out[j].0@ ==> p[i] < p[j]
}

/// `out` is the stable sort of `items` by key.
pub open spec fn stably_sorted<T>(items: Seq<(String, T)>, out: Seq<(String, T)>) -> bool {
    exists|p: Seq<int>| arranges(items, out, p)
}

proof fn lemma_insert_arranged<T>(
    items: Seq<(String, T)>,
    out: Seq<(String, T)>,
    p: Seq<int>,
    item: (String, T),
    pos: int,
)
    requires
        arranges(items, out, p),
        0 <= pos <= out.len(),
        forall|j: int| 0 <= j < pos ==> !chars_lt(item.0@, #[trigger] out[j].0@),
        pos < out.len() ==> chars_lt(item.0@, out[pos].0@),
    ensures
        arranges(items.push(item), out.insert(pos, item), p.insert(pos, items.len() as int)),
{
    let items2 = items.push(item);
    let out2 = out.insert(pos, item);
    let p2 = p.insert(pos, items.len() as int);
    let n = items.len() as int;
    // Every item after the new one has a key strictly greater than its key.
    assert forall|j: int| pos <= j < out.len() implies chars_lt(item.0@, #[trigger] out[j].0@) by {
        if j > pos {
            assert(!chars_lt(out[j].0@, out[pos].0@));
            lemma_chars_lt_total(out[pos].0@, out[j].0@);
            if out[pos].0@ != out[j].0@ {
                lemma_chars_lt_transitive(item.0@, out[pos].0@, out[j].0@);
            }
        }
    }
    assert forall|i: int| 0 <= i < p2.len() implies 0 <= #[trigger] p2[i] < items2.len() && out2[i] == items2[p2[i]] by {
        if i < pos {
            assert(p2[i] == p[i]);
        } else if i > pos {
            assert(p2[i] == p[i - 1]);
        }
    }
    assert forall|i: int, j: int| #![trigger p2[i], p2[j]] 0 <= i < j < p2.len() implies p2[i] != p2[j] by {
        if i != pos && j != pos {
            let i0 = if i < pos { i } else { i - 1 };
            let j0 = if j < pos { j } else { j - 1 };
            assert(p2[i] == p[i0] && p2[j] == p[j0]);
            assert(p[i0] != p[j0]);
        } else if i == pos {
            assert(p[j - 1] < n);
        } else {
            assert(p[i] < n);
        }
    }
    assert forall|i: int, j: int| #![trigger out2[i], out2[j]] 0 <= i < j < out2.len()
        implies !chars_lt(out2[j].0@, out2[i].0@) && (out2[i].0@ == out2[j].0@ ==> p2[i] < p2[j]) by {
        if i != pos && j != pos {
            let i0 = if i < pos { i } else { i - 1 };
            let j0 = if j < pos { j } else { j - 1 };
            assert(out2[i] == out[i0] && out2[j] == out[j0]);
            assert(p2[i] == p[i0] && p2[j] == p[j0]);
            assert(out[i0] == out[i0] && out[j0] == out[j0]);
        } else if i == pos {
            assert(out2[j] == out[j - 1]);
            assert(chars_lt(item.0@, out[j - 1].0@));
            lemma_chars_lt_asymmetric(item.0@, out[j - 1].0@);
            lemma_chars_lt_irreflexive(item.0@);
        } else {
            assert(out2[i] == out[i]);
            assert(!chars_lt(item.0@, out[i].0@));
            assert(p2[i] == p[i]);
            assert(p[i] < n);
        }
    }
}

/// Sorts `items` by key, keeping items with equal keys in their order.
pub fn stable_sort_by_key<T>(items: Vec<(String, T)>) -> (out: Vec<(String, T)>)
    ensures
        stably_sorted(items@, out@),
{
    let ghost orig = items@;
    let n = items.len();
    let mut rest = items;
    let mut out: Vec<(String, T)> = Vec::new();
    let ghost mut p: Seq<int> = Seq::empty();
    assert(orig.take(0) =~= Seq::<(String, T)>::empty());
    assert(orig.skip(0) =~= orig);
    let mut k: usize = 0;
    while k < n
        invariant
            n == orig.len(),
            k <= n,
            rest@ == orig.skip(k as int),
            arranges(orig.take(k as int), out@, p),
        decreases n - k,
    {
        let item = rest.remove(0);
        assert(item == orig[k as int]);
        assert(rest@ =~= orig.skip(k + 1));
        let mut pos: usize = 0;
        while pos < out.len() && !str_lt(item.0.as_str(), out[pos].0.as_str())
            invariant
                pos <= out@.len(),
                forall|j: int| 0 <= j < pos ==> !chars_lt(item.0@, #[trigger] out@[j].0@),
            decreases out@.len() - pos,
        {
            pos = pos + 1;
        }
        proof {
            lemma_insert_arranged(orig.take(k as int), out@, p, item, pos as int);
            assert(orig.take(k as int).push(item) =~= orig.take(k + 1));
            p = p.insert(pos as int, k as int);
        }
        out.insert(pos, item);
        k = k + 1;
    }
    assert(orig.take(n as int) =~= orig);
    out
}


/// The buckets that a rate-limit reply offers, before sorting: those listed by limit id where
/// the reply has that list, else its single bucket, else none.
pub open spec fn offered_buckets<T>(
    by_limit_id: Option<Vec<(String, T)>>,
    single: Option<(String, T)>,
) -> Seq<(String, T)> {
    match by_limit_id {
        Some(v) => v@,
        None => match single {
            Some(b) => seq![b],
            None => Seq::empty(),
        },
    }
}

/// The buckets of a rate-limit reply in the order the monitor shows them: those listed by limit
/// id where the reply has that list (in the order of their ids as listed), else its single
/// bucket; then sorted by limit id, keeping the order of buckets with equal ids. Each bucket
/// comes as its limit id and the rest of it.
pub fn arrange_rate_limits<T>(
    by_limit_id: Option<Vec<(String, T)>>,
    single: Option<(String, T)>,
) -> (buckets: Vec<(String, T)>)
    ensures
        stably_sorted(offered_buckets(by_limit_id, single), buckets@),
{
    let ghost offered = offered_buckets(by_limit_id, single);
    let chosen: Vec<(String, T)> = match by_limit_id {
        Some(v) => v,
        None => match single {
            Some(b) => vec![b],
            None => Vec::new(),
        },
    };
    assert(chosen@ =~= offered);
    stable_sort_by_key(chosen)
}


/// The items are in order of their keys.
pub open spec fn sorted_by_key<T>(s: Seq<(String, T)>) -> bool {
    forall|i: int, j: int| #![trigger s[i], s[j]] 0 <= i < j < s.len() ==> !chars_lt(s[j].0@, s[i].0@)
}

proof fn lemma_increasing_from_below(p: Seq<int>, i: int)
    requires
        0 <= i < p.len(),
        forall|a: int| 0 <= a < p.len() ==> 0 <= #[trigger] p[a],
        forall|a: int, b: int| #![trigger p[a], p[b]] 0 <= a < b < p.len() ==> p[a] < p[b],
    ensures
        p[i] >= i,
    decreases i,
{
    if i > 0 {
        lemma_increasing_from_below(p, i - 1);
        assert(p[i - 1] < p[i]);
    }
}

proof fn lemma_increasing_from_above(p: Seq<int>, i: int)
    requires
        0 <= i < p.len(),
        forall|a: int| 0 <= a < p.len() ==> #[trigger] p[a] < p.len(),
        forall|a: int, b: int| #![trigger p[a], p[b]] 0 <= a < b < p.len() ==> p[a] < p[b],
    ensures
        p[i] <= i,
    decreases p.len() - i,
{
    if i < p.len() - 1 {
        lemma_increasing_from_above(p, i + 1);
        assert(p[i] < p[i + 1]);
    }
}

/// Items already in order of their keys are kept as they are.
pub proof fn lemma_sorted_items_kept<T>(items: Seq<(String, T)>, out: Seq<(String, T)>)
    requires
        sorted_by_key(items),
        stably_sorted(items, out),
    ensures
        out == items,
{
    let p = choose|p: Seq<int>| arranges(items, out, p);
    assert forall|i: int, j: int| #![trigger p[i], p[j]] 0 <= i < j < p.len() implies p[i] < p[j] by {
        assert(out[i] == items[p[i]] && out[j] == items[p[j]]);
        assert(p[i] != p[j]);
        if p[i] > p[j] {
            assert(!chars_lt(out[j].0@, out[i].0@));
            assert(items[p[j]] == items[p[j]] && items[p[i]] == items[p[i]]);
            assert(!chars_lt(items[p[i]].0@, items[p[j]].0@));
            lemma_chars_lt_total(out[i].0@, out[j].0@);
            assert(out[i].0@ == out[j].0@);
        }
    }
    assert forall|i: int| 0 <= i < out.len() implies out[i] == items[i] by {
        lemma_increasing_from_below(p, i);
        lemma_increasing_from_above(p, i);
    }
    assert(out =~= items);
}

/// Arranging buckets that are already arranged leaves them as they are.
pub proof fn lemma_arrangement_idempotent<T>(
    items: Seq<(String, T)>,
    once: Seq<(String, T)>,
    twice: Seq<(String, T)>,
)
    requires
        stably_sorted(items, once),
        stably_sorted(once, twice),
    ensures
        twice == once,
{
    let p = choose|p: Seq<int>| arranges(items, once, p);
    assert(sorted_by_key(once));
    lemma_sorted_items_kept(once, twice);
}

proof fn lemma_arrangement_onto<T>(items: Seq<(String, T)>, out: Seq<(String, T)>, p: Seq<int>, v: int)
    requires
        arranges(items, out, p),
        0 <= v < items.len(),
    ensures
        exists|i: int| 0 <= i < p.len() && p[i] == v,
{
    let n = items.len() as int;
    let r = set_int_range(0, n);
    let f = |i: int| p[i];
    lemma_int_range(0, n);
    assert(injective_on(f, r)) by {
        assert forall|a: int, b: int| r.contains(a) && r.contains(b) && #[trigger] f(a) == #[trigger] f(b)
            implies a == b by {
            if a < b {
                assert(p[a] != p[b]);
            } else if b < a {
                assert(p[b] != p[a]);
            }
        }
    }
    lemma_map_size(r, r.map(f), f);
    assert(r.map(f).subset_of(r)) by {
        assert forall|x: int| r.map(f).contains(x) implies r.contains(x) by {
            let i = choose|i: int| r.contains(i) && f(i) == x;
            assert(0 <= p[i] < n);
        }
    }
    lemma_subset_equality(r.map(f), r);
    assert(r.contains(v));
    assert(r.map(f).contains(v));
    let i = choose|i: int| r.contains(i) && f(i) == v;
    assert(0 <= i < p.len() && p[i] == v);
}

/// The arrangement of a list of buckets is determined: any two stable sorts of the same items
/// by key are equal.
pub proof fn lemma_arrangement_unique<T>(items: Seq<(String, T)>, first: Seq<(String, T)>, second: Seq<(String, T)>)
    requires
        stably_sorted(items, first),
        stably_sorted(items, second),
    ensures
        first == second,
{
    let p1 = choose|p: Seq<int>| arranges(items, first, p);
    let p2 = choose|p: Seq<int>| arranges(items, second, p);
    let n = items.len() as int;
    let r = Seq::new(n as nat, |i: int| choose|j: int| 0 <= j < p1.len() && p1[j] == p2[i]);
    assert forall|i: int| 0 <= i < r.len() implies 0 <= #[trigger] r[i] < first.len() && second[i] == first[r[i]] by {
        assert(0 <= p2[i] < n);
        lemma_arrangement_onto(items, first, p1, p2[i]);
        assert(0 <= r[i] < n && p1[r[i]] == p2[i]);
    }
    assert forall|i: int, j: int| #![trigger r[i], r[j]] 0 <= i < j < r.len() implies r[i] != r[j] by {
        assert(0 <= p2[i] < n && 0 <= p2[j] < n);
        lemma_arrangement_onto(items, first, p1, p2[i]);
        lemma_arrangement_onto(items, first, p1, p2[j]);
        assert(p1[r[i]] == p2[i] && p1[r[j]] == p2[j]);
        assert(p2[i] != p2[j]);
    }
    assert forall|i: int, j: int| #![trigger second[i], second[j]]
        0 <= i < j < second.len() && second[i].0@ == second[j].0@ implies r[i] < r[j] by {
        assert(0 <= p2[i] < n && 0 <= p2[j] < n);
        lemma_arrangement_onto(items, first, p1, p2[i]);
        lemma_arrangement_onto(items, first, p1, p2[j]);
        assert(p1[r[i]] == p2[i] && p1[r[j]] == p2[j]);
        assert(second[i] == first[r[i]] && second[j] == first[r[j]]);
        assert(p2[i] < p2[j]);
        assert(r[i] != r[j]) by {
            assert(p2[i] != p2[j]);
        }
        if r[j] < r[i] {
            assert(first[r[j]] == first[r[j]] && first[r[i]] == first[r[i]]);
            assert(p1[r[j]] < p1[r[i]]);
        }
    }
    assert(arranges(first, second, r));
    assert(sorted_by_key(first));
    lemma_sorted_items_kept(first, second);
}

/// Why live rate limits could not be fetched from the Codex app server.
#[derive(Clone, Debug, PartialEq)]
pub enum CodexRpcError {
    /// Starting the server, or talking to it, failed with this I/O message.
    Spawn(String),
    /// The server did not expose its standard input or output.
    MissingPipe,
    /// The server did not answer in time.
    Timeout,
    /// The server closed its output before answering.
    Closed,
    /// A line from the server, or a request to it, was not valid JSON.
    InvalidJson(String),
    /// The server answered with this error.
    Rpc(String),
    /// The server's answer had no result.
    MissingResult,
}

impl CodexRpcError {
    /// The text that the error shows.
    pub open spec fn message_spec(&self) -> Seq<char> {
        match self {
            CodexRpcError::Spawn(m) => "failed to start Codex app-server: "@ + m@,
            CodexRpcError::MissingPipe => "Codex app-server did not expose stdio"@,
            CodexRpcError::Timeout => "Codex app-server timed out"@,
            CodexRpcError::Closed => "Codex app-server closed stdout"@,
            CodexRpcError::InvalidJson(m) => "invalid app-server JSON: "@ + m@,
            CodexRpcError::Rpc(m) => "app-server returned error: "@ + m@,
            CodexRpcError::MissingResult => "app-server response was missing result"@,
        }
    }

    /// The text that the error shows.
    pub fn message(&self) -> (m: String)
        ensures
            m@ == self.message_spec(),
    {
        match self {
            CodexRpcError::Spawn(detail) => {
                let mut m = String::from_str("failed to start Codex app-server: ");
                m.append(detail.as_str());
                m
            },
            CodexRpcError::MissingPipe => String::from_str("Codex app-server did not expose stdio"),
            CodexRpcError::Timeout => String::from_str("Codex app-server timed out"),
            CodexRpcError::Closed => String::from_str("Codex app-server closed stdout"),
            CodexRpcError::InvalidJson(detail) => {
                let mut m = String::from_str("invalid app-server JSON: ");
                m.append(detail.as_str());
                m
            },
            CodexRpcError::Rpc(detail) => {
                let mut m = String::from_str("app-server returned error: ");
                m.append(detail.as_str());
                m
            },
            CodexRpcError::MissingResult => String::from_str("app-server response was missing result"),
        }
    }
}

/// What one JSON-RPC line from the server holds: its `id` where that is an unsigned integer,
/// and the JSON text of its `error` and of its `result` where it has them.
#[derive(Clone, Debug, PartialEq)]
pub struct ResponseLine {
    pub id: Option<u64>,
    pub error: Option<String>,
    pub result: Option<String>,
}

/// The fields of a [`ResponseLine`] as characters, or the parser's message.
pub open spec fn response_line_view(r: Result<ResponseLine, String>) -> Result<(Option<u64>, Option<Seq<char>>, Option<Seq<char>>), Seq<char>> {
    match r {
        Ok(l) => Ok((
            l.id,
            match l.error { Some(e) => Some(e@), None => None },
            match l.result { Some(v) => Some(v@), None => None },
        )),
        Err(m) => Err(m@),
    }
}

/// What `serde_json::from_str` makes of a line as a `serde_json::Value`, read through
/// `Value::get`: the `id` as `u64` (`Value::as_u64`), and the `error` and `result` members
/// written back as JSON text; or the parser's error message where the line is not JSON.
pub uninterp spec fn json_response_fields(line: Seq<char>) -> Result<(Option<u64>, Option<Seq<char>>, Option<Seq<char>>), Seq<char>>;

/// Calls `serde_json::from_str` on `line` and reads the `id`, `error` and `result` members of
/// the value with `Value::get`, `Value::as_u64` and `Value::to_string`. The contract claims
/// that the result is [`json_response_fields`] of the line.
#[verifier::external_body]
fn read_response_line(line: &str) -> (r: Result<ResponseLine, String>)
    ensures
        response_line_view(r) == json_response_fields(line@),
{
    match serde_json::from_str::<serde_json::Value>(line) {
        Ok(v) => Ok(ResponseLine {
            id: v.get("id").and_then(serde_json::Value::as_u64),
            error: v.get("error").map(|e| e.to_string()),
            result: v.get("result").map(|r| r.to_string()),
        }),
        Err(e) => Err(e.to_string()),
    }
}

/// Where a session with the app server stands.
#[derive(Clone, Copy, Debug, PartialEq, Eq, Structural)]
pub enum RpcStage {
    /// The `initialize` request (id 0) is sent and its answer awaited.
    Initializing,
    /// The rate-limit read (id 1) is sent and its answer awaited.
    ReadingRateLimits,
    /// The session has its outcome.
    Finished,
}

/// A request that the caller writes to the server, one JSON line each.
#[derive(Clone, Copy, Debug, PartialEq, Eq, Structural)]
pub enum RpcRequest {
    /// `initialize`, with id 0 and the client's name, title and version.
    Initialize,
    /// The `initialized` notification.
    Initialized,
    /// `account/rateLimits/read`, with id 1.
    ReadRateLimits,
}

/// What the caller does after handing a line to the session.
#[derive(Clone, Debug, PartialEq)]
pub enum RpcStep {
    /// Read the next line.
    ReadNext,
    /// Write these requests in order, then read the next line.
    Send(Vec<RpcRequest>),
    /// The session succeeded with this result, as JSON text.
    Complete(String),
    /// The session failed.
    Fail(CodexRpcError),
}

/// Why reading a line from the server failed.
#[derive(Clone, Debug, PartialEq)]
pub enum ReadFailure {
    /// No line came in time.
    TimedOut,
    /// The output ended.
    Closed,
    /// Reading failed with this I/O message.
    Io(String),
}

/// The id of the answer that a stage awaits.
pub open spec fn awaited_id(stage: RpcStage) -> u64 {
    match stage {
        RpcStage::Initializing => 0,
        _ => 1,
    }
}

/// The stage a session moves to on a line that parsed as `parsed`.
pub open spec fn stage_after(
    stage: RpcStage,
    parsed: Result<(Option<u64>, Option<Seq<char>>, Option<Seq<char>>), Seq<char>>,
) -> RpcStage {
    match parsed {
        Err(_) => RpcStage::Finished,
        Ok((id, error, _)) => {
            if id != Some(awaited_id(stage)) {
                stage
            } else if error is Some {
                RpcStage::Finished
            } else if stage == RpcStage::Initializing {
                RpcStage::ReadingRateLimits
            } else {
                RpcStage::Finished
            }
        },
    }
}

/// How far a session has come.
pub open spec fn stage_rank(stage: RpcStage) -> int {
    match stage {
        RpcStage::Initializing => 0,
        RpcStage::ReadingRateLimits => 1,
        RpcStage::Finished => 2,
    }
}

/// A session never goes back to an earlier stage, and it moves from `initialize` to the
/// rate-limit read only on an answer with id 0 and no error.
pub proof fn lemma_session_moves_forward(
    stage: RpcStage,
    parsed: Result<(Option<u64>, Option<Seq<char>>, Option<Seq<char>>), Seq<char>>,
)
    ensures
        stage_rank(stage_after(stage, parsed)) >= stage_rank(stage),
        stage == RpcStage::Initializing && stage_after(stage, parsed) == RpcStage::ReadingRateLimits
            ==> (parsed matches Ok((id, error, _)) && id == Some(0u64) && error is None),
{
}

/// The step a session takes, in `stage`, on a line that parsed as `parsed`: failure where the
/// line is not JSON; reading on where it answers another request; failure with the server's
/// error where it has one; the rate-limit read after the answer to `initialize`; the result, or
/// failure where there is none, after the answer to the rate-limit read.
pub open spec fn step_spec(
    stage: RpcStage,
    parsed: Result<(Option<u64>, Option<Seq<char>>, Option<Seq<char>>), Seq<char>>,
    step: RpcStep,
) -> bool {
    match parsed {
        Err(m) => step matches RpcStep::Fail(CodexRpcError::InvalidJson(e)) && e@ == m,
        Ok((id, error, result)) => {
            if id != Some(awaited_id(stage)) {
                step == RpcStep::ReadNext
            } else if error is Some {
                step matches RpcStep::Fail(CodexRpcError::Rpc(e)) && e@ == error->0
            } else if stage == RpcStage::Initializing {
                step matches RpcStep::Send(requests)
                    && requests@ == seq![RpcRequest::Initialized, RpcRequest::ReadRateLimits]
            } else {
                match result {
                    Some(r) => step matches RpcStep::Complete(text) && text@ == r,
                    None => step == RpcStep::Fail(CodexRpcError::MissingResult),
                }
            }
        },
    }
}

/// A line that does not answer the request a session waits for (id 0 for `initialize`, id 1
/// for the rate-limit read), a notification without an id among them, is passed over: the
/// session reads on and stays where it was.
pub proof fn lemma_other_lines_passed_over(
    stage: RpcStage,
    parsed: Result<(Option<u64>, Option<Seq<char>>, Option<Seq<char>>), Seq<char>>,
    step: RpcStep,
)
    requires
        stage != RpcStage::Finished,
        step_spec(stage, parsed, step),
        parsed matches Ok((id, _, _))
            && id != Some(if stage == RpcStage::Initializing { 0u64 } else { 1u64 }),
    ensures
        step == RpcStep::ReadNext,
        stage_after(stage, parsed) == stage,
{
}

/// A session ends with a result, or with a missing result, only on the answer to the
/// rate-limit read: a line with id 1 and no error, after the answer to `initialize`; the result
/// is that answer's `result`.
pub proof fn lemma_outcome_only_from_rate_limit_answer(
    stage: RpcStage,
    parsed: Result<(Option<u64>, Option<Seq<char>>, Option<Seq<char>>), Seq<char>>,
    step: RpcStep,
)
    requires
        stage != RpcStage::Finished,
        step_spec(stage, parsed, step),
        step is Complete || step == RpcStep::Fail(CodexRpcError::MissingResult),
    ensures
        stage == RpcStage::ReadingRateLimits,
        parsed matches Ok((id, error, result))
            && id == Some(1u64)
            && error is None
            && (step matches RpcStep::Complete(text) ==> result == Some(text@))
            && (step == RpcStep::Fail(CodexRpcError::MissingResult) ==> result is None),
        stage_after(stage, parsed) == RpcStage::Finished,
{
}

/// One JSON-RPC session that reads the account's rate limits from the Codex app server. The
/// decisions are made here; the caller writes the requests and reads the lines.
pub struct RpcSession {
    pub stage: RpcStage,
}

impl RpcSession {
    /// A new session, and the requests to write first.
    pub fn start() -> (r: (RpcSession, Vec<RpcRequest>))
        ensures
            r.0.stage == RpcStage::Initializing,
            r.1@ == seq![RpcRequest::Initialize],
    {
        (RpcSession { stage: RpcStage::Initializing }, vec![RpcRequest::Initialize])
    }

    /// Decides on one line read from the server, given what the line parsed to. A line that is
    /// not JSON fails the session; a line that answers another request is passed over; an answer
    /// with an error fails the session; the answer to `initialize` leads to the rate-limit read;
    /// the answer to that read ends the session with its result.
    pub fn on_response(&mut self, parsed: Result<ResponseLine, String>) -> (step: RpcStep)
        requires
            old(self).stage != RpcStage::Finished,
        ensures
            final(self).stage == stage_after(old(self).stage, response_line_view(parsed)),
            step_spec(old(self).stage, response_line_view(parsed), step),
    {
        let awaited: u64 = match self.stage {
            RpcStage::Initializing => 0,
            _ => 1,
        };
        match parsed {
            Err(m) => {
                self.stage = RpcStage::Finished;
                RpcStep::Fail(CodexRpcError::InvalidJson(m))
            },
            Ok(response) => {
                let matches_awaited = match response.id {
                    Some(id) => id == awaited,
                    None => false,
                };
                if !matches_awaited {
                    RpcStep::ReadNext
                } else {
                    match response.error {
                        Some(e) => {
                            self.stage = RpcStage::Finished;
                            RpcStep::Fail(CodexRpcError::Rpc(e))
                        },
                        None => {
                            if self.stage == RpcStage::Initializing {
                                self.stage = RpcStage::ReadingRateLimits;
                                RpcStep::Send(vec![RpcRequest::Initialized, RpcRequest::ReadRateLimits])
                            } else {
                                self.stage = RpcStage::Finished;
                                match response.result {
                                    Some(r) => RpcStep::Complete(r),
                                    None => RpcStep::Fail(CodexRpcError::MissingResult),
                                }
                            }
                        },
                    }
                }
            },
        }
    }

    /// Decides on one line read from the server, as [`RpcSession::on_response`] does on what
    /// `serde_json` makes of the line.
    pub fn on_line(&mut self, line: &str) -> (step: RpcStep)
        requires
            old(self).stage != RpcStage::Finished,
        ensures
            final(self).stage == stage_after(old(self).stage, json_response_fields(line@)),
            step_spec(old(self).stage, json_response_fields(line@), step),
    {
        let parsed = read_response_line(line);
        self.on_response(parsed)
    }

    /// Ends the session where reading a line failed, with the error that the failure means.
    pub fn on_read_failure(&mut self, failure: ReadFailure) -> (e: CodexRpcError)
        ensures
            final(self).stage == RpcStage::Finished,
            match failure {
                ReadFailure::TimedOut => e == CodexRpcError::Timeout,
                ReadFailure::Closed => e == CodexRpcError::Closed,
                ReadFailure::Io(m) => e == CodexRpcError::Spawn(m),
            },
    {
        self.stage = RpcStage::Finished;
        match failure {
            ReadFailure::TimedOut => CodexRpcError::Timeout,
            ReadFailure::Closed => CodexRpcError::Closed,
            ReadFailure::Io(m) => CodexRpcError::Spawn(m),
        }
    }
}

} // verus!
