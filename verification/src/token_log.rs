use vstd::prelude::*;
use vstd::string::*;

use crate::text::{all_digits, digits_value, lemma_digits_value_grows, parse_i64_spec};

verus! {

broadcast use vstd::string::group_string_axioms;

/// The kinds of token count that a completed response logs.
#[derive(Clone, Copy, Debug, PartialEq, Eq, Structural)]
pub enum TokenKind {
    Input,
    Output,
    Cached,
    Reasoning,
    Tool,
}

/// The word that names a kind in the log: `input`, `output`, `cached`, `reasoning`, `tool`.
pub open spec fn kind_word(k: TokenKind) -> Seq<char> {
    match k {
        TokenKind::Input => seq!['i', 'n', 'p', 'u', 't'],
        TokenKind::Output => seq!['o', 'u', 't', 'p', 'u', 't'],
        TokenKind::Cached => seq!['c', 'a', 'c', 'h', 'e', 'd'],
        TokenKind::Reasoning => seq!['r', 'e', 'a', 's', 'o', 'n', 'i', 'n', 'g'],
        TokenKind::Tool => seq!['t', 'o', 'o', 'l'],
    }
}

/// What follows the kind's word: `_token_count=`.
pub open spec fn count_suffix() -> Seq<char> {
    seq!['_', 't', 'o', 'k', 'e', 'n', '_', 'c', 'o', 'u', 'n', 't', '=']
}

/// The field name before a count, such as `input_token_count=`.
pub open spec fn field_name(k: TokenKind) -> Seq<char> {
    kind_word(k) + count_suffix()
}

/// The decimal digits of Unicode (general category `Nd`, Unicode 16.0), which `\d` matches in
/// a `regex` pattern.
pub open spec fn is_decimal_digit(c: char) -> bool {
    let u = c as int;
    ||| 0x30 <= u <= 0x39
    ||| 0x660 <= u <= 0x669
    ||| 0x6F0 <= u <= 0x6F9
    ||| 0x7C0 <= u <= 0x7C9
    ||| 0x966 <= u <= 0x96F
    ||| 0x9E6 <= u <= 0x9EF
    ||| 0xA66 <= u <= 0xA6F
    ||| 0xAE6 <= u <= 0xAEF
    ||| 0xB66 <= u <= 0xB6F
    ||| 0xBE6 <= u <= 0xBEF
    ||| 0xC66 <= u <= 0xC6F
    ||| 0xCE6 <= u <= 0xCEF
    ||| 0xD66 <= u <= 0xD6F
    ||| 0xDE6 <= u <= 0xDEF
    ||| 0xE50 <= u <= 0xE59
    ||| 0xED0 <= u <= 0xED9
    ||| 0xF20 <= u <= 0xF29
    ||| 0x1040 <= u <= 0x1049
    ||| 0x1090 <= u <= 0x1099
    ||| 0x17E0 <= u <= 0x17E9
    ||| 0x1810 <= u <= 0x1819
    ||| 0x1946 <= u <= 0x194F
    ||| 0x19D0 <= u <= 0x19D9
    ||| 0x1A80 <= u <= 0x1A89
    ||| 0x1A90 <= u <= 0x1A99
    ||| 0x1B50 <= u <= 0x1B59
    ||| 0x1BB0 <= u <= 0x1BB9
    ||| 0x1C40 <= u <= 0x1C49
    ||| 0x1C50 <= u <= 0x1C59
    ||| 0xA620 <= u <= 0xA629
    ||| 0xA8D0 <= u <= 0xA8D9
    ||| 0xA900 <= u <= 0xA909
    ||| 0xA9D0 <= u <= 0xA9D9
    ||| 0xA9F0 <= u <= 0xA9F9
    ||| 0xAA50 <= u <= 0xAA59
    ||| 0xABF0 <= u <= 0xABF9
    ||| 0xFF10 <= u <= 0xFF19
    ||| 0x104A0 <= u <= 0x104A9
    ||| 0x10D30 <= u <= 0x10D39
    ||| 0x10D40 <= u <= 0x10D49
    ||| 0x11066 <= u <= 0x1106F
    ||| 0x110F0 <= u <= 0x110F9
    ||| 0x11136 <= u <= 0x1113F
    ||| 0x111D0 <= u <= 0x111D9
    ||| 0x112F0 <= u <= 0x112F9
    ||| 0x11450 <= u <= 0x11459
    ||| 0x114D0 <= u <= 0x114D9
    ||| 0x11650 <= u <= 0x11659
    ||| 0x116C0 <= u <= 0x116C9
    ||| 0x116D0 <= u <= 0x116E3
    ||| 0x11730 <= u <= 0x11739
    ||| 0x118E0 <= u <= 0x118E9
    ||| 0x11950 <= u <= 0x11959
    ||| 0x11BF0 <= u <= 0x11BF9
    ||| 0x11C50 <= u <= 0x11C59
    ||| 0x11D50 <= u <= 0x11D59
    ||| 0x11DA0 <= u <= 0x11DA9
    ||| 0x11F50 <= u <= 0x11F59
    ||| 0x16130 <= u <= 0x16139
    ||| 0x16A60 <= u <= 0x16A69
    ||| 0x16AC0 <= u <= 0x16AC9
    ||| 0x16B50 <= u <= 0x16B59
    ||| 0x16D70 <= u <= 0x16D79
    ||| 0x1CCF0 <= u <= 0x1CCF9
    ||| 0x1D7CE <= u <= 0x1D7FF
    ||| 0x1E140 <= u <= 0x1E149
    ||| 0x1E2F0 <= u <= 0x1E2F9
    ||| 0x1E4F0 <= u <= 0x1E4F9
    ||| 0x1E5F1 <= u <= 0x1E5FA
    ||| 0x1E950 <= u <= 0x1E959
    ||| 0x1FBF0 <= u <= 0x1FBF9
}

/// `text` holds `w` from place `i` on.
pub open spec fn word_at(text: Seq<char>, i: int, w: Seq<char>) -> bool {
    0 <= i && i + w.len() <= text.len() && text.subrange(i, i + w.len()) == w
}

/// The kind whose field name starts at place `i`, if any.
pub open spec fn kind_at(text: Seq<char>, i: int) -> Option<TokenKind> {
    if word_at(text, i, field_name(TokenKind::Input)) {
        Some(TokenKind::Input)
    } else if word_at(text, i, field_name(TokenKind::Output)) {
        Some(TokenKind::Output)
    } else if word_at(text, i, field_name(TokenKind::Cached)) {
        Some(TokenKind::Cached)
    } else if word_at(text, i, field_name(TokenKind::Reasoning)) {
        Some(TokenKind::Reasoning)
    } else if word_at(text, i, field_name(TokenKind::Tool)) {
        Some(TokenKind::Tool)
    } else {
        None
    }
}

/// The end of the longest run of decimal digits that starts at place `j`.
pub open spec fn digits_end(text: Seq<char>, j: int) -> int
    decreases text.len() - j,
{
    if 0 <= j < text.len() && is_decimal_digit(text[j]) {
        digits_end(text, j + 1)
    } else {
        j
    }
}

/// The run of digits from `j` stays inside the text, holds only decimal digits, and is not
/// followed by one.
pub proof fn lemma_digits_end(text: Seq<char>, j: int)
    requires
        0 <= j <= text.len(),
    ensures
        j <= digits_end(text, j) <= text.len(),
        forall|k: int| j <= k < digits_end(text, j) ==> is_decimal_digit(#[trigger] text[k]),
        digits_end(text, j) < text.len() ==> !is_decimal_digit(text[digits_end(text, j)]),
    decreases text.len() - j,
{
    if j < text.len() && is_decimal_digit(text[j]) {
        lemma_digits_end(text, j + 1);
    }
}

/// The token count that starts at place `i`, if one does: its kind, and where its digits
/// start and end. A count is a field name followed by at least one decimal digit, and takes
/// all the digits that follow.
pub open spec fn match_at(text: Seq<char>, i: int) -> Option<(TokenKind, int, int)> {
    match kind_at(text, i) {
        Some(k) => {
            let j = i + field_name(k).len();
            let e = digits_end(text, j);
            if e > j {
                Some((k, j, e))
            } else {
                None
            }
        },
        None => None,
    }
}

/// The token counts in `text` from place `i` on, left to right and without overlap: the
/// first place where a count starts gives the first one, and the search goes on after it.
pub open spec fn matches_from(text: Seq<char>, i: int) -> Seq<(TokenKind, Seq<char>)>
    decreases text.len() - i,
{
    if i < 0 || i >= text.len() {
        Seq::empty()
    } else {
        match match_at(text, i) {
            Some((k, j, e)) => {
                proof {
                    lemma_digits_end(text, j);
                }
                seq![(k, text.subrange(j, e))] + matches_from(text, e)
            },
            None => matches_from(text, i + 1),
        }
    }
}

/// The token counts that a body logs, each as its kind and its digits: what `regex` finds for
/// `(input|output|cached|reasoning|tool)_token_count=(\d+)`, match by match.
pub open spec fn token_matches(text: Seq<char>) -> Seq<(TokenKind, Seq<char>)> {
    matches_from(text, 0)
}

/// The count that a run of digits adds: its value as `str::parse::<i64>` reads it, or zero
/// where it does not parse (a digit outside ASCII, or a value beyond `i64::MAX`).
pub open spec fn count_value(digits: Seq<char>) -> int {
    match parse_i64_spec(digits) {
        Some(v) => v,
        None => 0,
    }
}

/// The token counts that a body logs, each as its kind and the value it adds.
pub open spec fn token_count_values(text: Seq<char>) -> Seq<(TokenKind, int)> {
    token_matches(text).map_values(|m: (TokenKind, Seq<char>)| (m.0, count_value(m.1)))
}

/// The values of a list of (kind, count) pairs as integers.
pub open spec fn counts_view(counts: Seq<(TokenKind, i64)>) -> Seq<(TokenKind, int)> {
    counts.map_values(|c: (TokenKind, i64)| (c.0, c.1 as int))
}

/// The characters of a string, in order.
pub fn chars_of(s: &str) -> (v: Vec<char>)
    ensures
        v@ == s@,
{
    let mut v: Vec<char> = Vec::new();
    for c in it: s.chars()
        invariant
            v@ == it.seq().take(it.index() as int),
    {
        v.push(c);
    }
    v
}

fn decimal_digit(c: char) -> (r: bool)
    ensures
        r == is_decimal_digit(c),
{
    let u = c as u32;
    (0x30 <= u && u <= 0x39) ||
        (0x660 <= u && u <= 0x669) ||
        (0x6F0 <= u && u <= 0x6F9) ||
        (0x7C0 <= u && u <= 0x7C9) ||
        (0x966 <= u && u <= 0x96F) ||
        (0x9E6 <= u && u <= 0x9EF) ||
        (0xA66 <= u && u <= 0xA6F) ||
        (0xAE6 <= u && u <= 0xAEF) ||
        (0xB66 <= u && u <= 0xB6F) ||
        (0xBE6 <= u && u <= 0xBEF) ||
        (0xC66 <= u && u <= 0xC6F) ||
        (0xCE6 <= u && u <= 0xCEF) ||
        (0xD66 <= u && u <= 0xD6F) ||
        (0xDE6 <= u && u <= 0xDEF) ||
        (0xE50 <= u && u <= 0xE59) ||
        (0xED0 <= u && u <= 0xED9) ||
        (0xF20 <= u && u <= 0xF29) ||
        (0x1040 <= u && u <= 0x1049) ||
        (0x1090 <= u && u <= 0x1099) ||
        (0x17E0 <= u && u <= 0x17E9) ||
        (0x1810 <= u && u <= 0x1819) ||
        (0x1946 <= u && u <= 0x194F) ||
        (0x19D0 <= u && u <= 0x19D9) ||
        (0x1A80 <= u && u <= 0x1A89) ||
        (0x1A90 <= u && u <= 0x1A99) ||
        (0x1B50 <= u && u <= 0x1B59) ||
        (0x1BB0 <= u && u <= 0x1BB9) ||
        (0x1C40 <= u && u <= 0x1C49) ||
        (0x1C50 <= u && u <= 0x1C59) ||
        (0xA620 <= u && u <= 0xA629) ||
        (0xA8D0 <= u && u <= 0xA8D9) ||
        (0xA900 <= u && u <= 0xA909) ||
        (0xA9D0 <= u && u <= 0xA9D9) ||
        (0xA9F0 <= u && u <= 0xA9F9) ||
        (0xAA50 <= u && u <= 0xAA59) ||
        (0xABF0 <= u && u <= 0xABF9) ||
        (0xFF10 <= u && u <= 0xFF19) ||
        (0x104A0 <= u && u <= 0x104A9) ||
        (0x10D30 <= u && u <= 0x10D39) ||
        (0x10D40 <= u && u <= 0x10D49) ||
        (0x11066 <= u && u <= 0x1106F) ||
        (0x110F0 <= u && u <= 0x110F9) ||
        (0x11136 <= u && u <= 0x1113F) ||
        (0x111D0 <= u && u <= 0x111D9) ||
        (0x112F0 <= u && u <= 0x112F9) ||
        (0x11450 <= u && u <= 0x11459) ||
        (0x114D0 <= u && u <= 0x114D9) ||
        (0x11650 <= u && u <= 0x11659) ||
        (0x116C0 <= u && u <= 0x116C9) ||
        (0x116D0 <= u && u <= 0x116E3) ||
        (0x11730 <= u && u <= 0x11739) ||
        (0x118E0 <= u && u <= 0x118E9) ||
        (0x11950 <= u && u <= 0x11959) ||
        (0x11BF0 <= u && u <= 0x11BF9) ||
        (0x11C50 <= u && u <= 0x11C59) ||
        (0x11D50 <= u && u <= 0x11D59) ||
        (0x11DA0 <= u && u <= 0x11DA9) ||
        (0x11F50 <= u && u <= 0x11F59) ||
        (0x16130 <= u && u <= 0x16139) ||
        (0x16A60 <= u && u <= 0x16A69) ||
        (0x16AC0 <= u && u <= 0x16AC9) ||
        (0x16B50 <= u && u <= 0x16B59) ||
        (0x16D70 <= u && u <= 0x16D79) ||
        (0x1CCF0 <= u && u <= 0x1CCF9) ||
        (0x1D7CE <= u && u <= 0x1D7FF) ||
        (0x1E140 <= u && u <= 0x1E149) ||
        (0x1E2F0 <= u && u <= 0x1E2F9) ||
        (0x1E4F0 <= u && u <= 0x1E4F9) ||
        (0x1E5F1 <= u && u <= 0x1E5FA) ||
        (0x1E950 <= u && u <= 0x1E959) ||
        (0x1FBF0 <= u && u <= 0x1FBF9)
}

fn field_chars(k: TokenKind) -> (w: Vec<char>)
    ensures
        w@ == field_name(k),
{
    let w = match k {
        TokenKind::Input => vec!['i', 'n', 'p', 'u', 't', '_', 't', 'o', 'k', 'e', 'n', '_', 'c', 'o', 'u', 'n', 't', '='],
        TokenKind::Output => vec!['o', 'u', 't', 'p', 'u', 't', '_', 't', 'o', 'k', 'e', 'n', '_', 'c', 'o', 'u', 'n', 't', '='],
        TokenKind::Cached => vec!['c', 'a', 'c', 'h', 'e', 'd', '_', 't', 'o', 'k', 'e', 'n', '_', 'c', 'o', 'u', 'n', 't', '='],
        TokenKind::Reasoning => vec!['r', 'e', 'a', 's', 'o', 'n', 'i', 'n', 'g', '_', 't', 'o', 'k', 'e', 'n', '_', 'c', 'o', 'u', 'n', 't', '='],
        TokenKind::Tool => vec!['t', 'o', 'o', 'l', '_', 't', 'o', 'k', 'e', 'n', '_', 'c', 'o', 'u', 'n', 't', '='],
    };
    assert(w@ =~= field_name(k));
    w
}

fn word_at_exec(text: &Vec<char>, i: usize, w: &Vec<char>) -> (r: bool)
    ensures
        r == word_at(text@, i as int, w@),
{
    if w.len() > text.len() || i > text.len() - w.len() {
        return false;
    }
    let tl = text.len();
    let mut k: usize = 0;
    while k < w.len()
        invariant
            tl == text@.len(),
            i + w@.len() <= text@.len(),
            k <= w@.len(),
            forall|m: int| 0 <= m < k ==> text@[i + m] == w@[m],
        decreases w@.len() - k,
    {
        assert(i + k < tl);
        if text[i + k] != w[k] {
            assert(text@.subrange(i as int, i + w@.len())[k as int] != w@[k as int]);
            return false;
        }
        k = k + 1;
    }
    assert(text@.subrange(i as int, i + w@.len()) =~= w@);
    true
}

fn kind_at_exec(text: &Vec<char>, i: usize) -> (r: Option<TokenKind>)
    ensures
        r == kind_at(text@, i as int),
{
    if word_at_exec(text, i, &field_chars(TokenKind::Input)) {
        Some(TokenKind::Input)
    } else if word_at_exec(text, i, &field_chars(TokenKind::Output)) {
        Some(TokenKind::Output)
    } else if word_at_exec(text, i, &field_chars(TokenKind::Cached)) {
        Some(TokenKind::Cached)
    } else if word_at_exec(text, i, &field_chars(TokenKind::Reasoning)) {
        Some(TokenKind::Reasoning)
    } else if word_at_exec(text, i, &field_chars(TokenKind::Tool)) {
        Some(TokenKind::Tool)
    } else {
        None
    }
}

fn digits_end_exec(text: &Vec<char>, j: usize) -> (e: usize)
    requires
        j <= text@.len(),
    ensures
        e == digits_end(text@, j as int),
{
    let mut e = j;
    while e < text.len() && decimal_digit(text[e])
        invariant
            j <= e <= text@.len(),
            digits_end(text@, j as int) == digits_end(text@, e as int),
        decreases text@.len() - e,
    {
        e = e + 1;
    }
    e
}

/// The value of the run of decimal digits `text[j..e]`, as [`count_value`] reads it.
fn run_value(text: &Vec<char>, j: usize, e: usize) -> (v: i64)
    requires
        j < e <= text@.len(),
        forall|k: int| j <= k < e ==> is_decimal_digit(#[trigger] text@[k]),
    ensures
        v == count_value(text@.subrange(j as int, e as int)),
{
    let ghost run = text@.subrange(j as int, e as int);
    assert(run[0] == text@[j as int]);
    assert(is_decimal_digit(text@[j as int]));
    let mut value: u64 = 0;
    let mut i: usize = j;
    assert(run.take(0) =~= Seq::<char>::empty());
    while i < e
        invariant
            j <= i <= e <= text@.len(),
            run == text@.subrange(j as int, e as int),
            forall|k: int| j <= k < e ==> is_decimal_digit(#[trigger] text@[k]),
            all_digits(run.take(i - j)),
            value as nat == digits_value(run.take(i - j)),
            value <= 9_223_372_036_854_775_807u64,
        decreases e - i,
    {
        let c = text[i];
        assert(run[i - j] == c);
        if !('0' <= c && c <= '9') {
            return 0;
        }
        let d: u64 = (c as u32 - '0' as u32) as u64;
        proof {
            let t = run.take(i - j + 1);
            assert(t.drop_last() =~= run.take(i - j));
            assert(t.last() == c);
        }
        if value > (9_223_372_036_854_775_807u64 - d) / 10 {
            proof {
                let t = run.take(i - j + 1);
                assert(digits_value(t) > 9_223_372_036_854_775_807u64) by (nonlinear_arith)
                    requires
                        value > (9_223_372_036_854_775_807u64 - d) / 10,
                        digits_value(t) == value * 10 + d,
                        d < 10;
                if all_digits(run) {
                    lemma_digits_value_grows(run, i - j + 1);
                }
            }
            return 0;
        }
        proof {
            assert(value * 10 + d <= 9_223_372_036_854_775_807u64) by (nonlinear_arith)
                requires
                    value <= (9_223_372_036_854_775_807u64 - d) / 10,
                    d < 10;
        }
        value = value * 10 + d;
        i = i + 1;
        proof {
            assert(all_digits(run.take(i - j)));
        }
    }
    assert(run.take(e - j) =~= run);
    value as i64
}

/// The token counts that a completed response logged in `body`, in order, each as its kind
/// and the value it adds.
pub fn token_counts(body: &str) -> (counts: Vec<(TokenKind, i64)>)
    ensures
        counts_view(counts@) == token_count_values(body@),
{
    let text = chars_of(body);
    let n = text.len();
    let mut counts: Vec<(TokenKind, i64)> = Vec::new();
    let ghost mut found: Seq<(TokenKind, Seq<char>)> = Seq::empty();
    let mut i: usize = 0;
    while i < n
        invariant
            n == text@.len(),
            text@ == body@,
            i <= n,
            token_matches(text@) == found + matches_from(text@, i as int),
            counts_view(counts@) == found.map_values(|m: (TokenKind, Seq<char>)| (m.0, count_value(m.1))),
        decreases n - i,
    {
        let kind = kind_at_exec(&text, i);
        let mut next = i + 1;
        if let Some(k) = kind {
            let start = i + field_chars(k).len();
            let end = digits_end_exec(&text, start);
            proof {
                lemma_digits_end(text@, start as int);
            }
            if end > start {
                let value = run_value(&text, start, end);
                let ghost m = (k, text@.subrange(start as int, end as int));
                proof {
                    assert(matches_from(text@, i as int) == seq![m] + matches_from(text@, end as int));
                    assert(found + matches_from(text@, i as int) =~= found.push(m) + matches_from(text@, end as int));
                }
                let ghost before = counts@;
                counts.push((k, value));
                proof {
                    assert(counts@ == before.push((k, value)));
                    assert(counts_view(counts@) =~= counts_view(before).push((k, value as int)));
                    assert(found.push(m).map_values(|m: (TokenKind, Seq<char>)| (m.0, count_value(m.1)))
                        =~= found.map_values(|m: (TokenKind, Seq<char>)| (m.0, count_value(m.1))).push((k, value as int)));
                    found = found.push(m);
                }
                next = end;
            }
        }
        i = next;
    }
    assert(matches_from(text@, n as int) =~= Seq::<(TokenKind, Seq<char>)>::empty());
    assert(found + Seq::<(TokenKind, Seq<char>)>::empty() =~= found);
    counts
}

} // verus!
