use codex_limit_monitor::token_log::{chars_of, token_counts, TokenKind};
use regex::Regex;

fn kind_name(k: TokenKind) -> &'static str {
    match k {
        TokenKind::Input => "input",
        TokenKind::Output => "output",
        TokenKind::Cached => "cached",
        TokenKind::Reasoning => "reasoning",
        TokenKind::Tool => "tool",
    }
}

/// What a regex scan of the same body finds, each count read with `parse::<i64>` and zero
/// where it does not parse.
fn regex_counts(body: &str) -> Vec<(String, i64)> {
    let re = Regex::new(r"(input|output|cached|reasoning|tool)_token_count=(\d+)").unwrap();
    re.captures_iter(body)
        .map(|c| (c[1].to_string(), c[2].parse::<i64>().unwrap_or(0)))
        .collect()
}

fn scanned(body: &str) -> Vec<(String, i64)> {
    token_counts(body).into_iter().map(|(k, v)| (kind_name(k).to_string(), v)).collect()
}

#[test]
fn token_counts_in_order() {
    assert_eq!(
        token_counts("a input_token_count=40917 output_token_count=410 tool_token_count=7 b"),
        vec![(TokenKind::Input, 40917), (TokenKind::Output, 410), (TokenKind::Tool, 7)]
    );
    assert_eq!(token_counts("cached_token_count=0"), vec![(TokenKind::Cached, 0)]);
    assert_eq!(token_counts("reasoning_token_count=32;"), vec![(TokenKind::Reasoning, 32)]);
}

#[test]
fn field_without_digits_is_no_count() {
    assert!(token_counts("input_token_count=").is_empty());
    assert!(token_counts("input_token_count=x5").is_empty());
    assert!(token_counts("input_token_count 5").is_empty());
    assert!(token_counts("").is_empty());
    assert!(token_counts("Input_token_count=5").is_empty());
}

#[test]
fn digits_outside_ascii_end_the_count_or_add_zero() {
    // Arabic-Indic digits are decimal digits: they belong to the count, which then does not
    // parse as an integer and adds zero.
    assert_eq!(token_counts("input_token_count=١٢"), vec![(TokenKind::Input, 0)]);
    assert_eq!(token_counts("input_token_count=12٣"), vec![(TokenKind::Input, 0)]);
    // A letter ends the run of digits.
    assert_eq!(token_counts("output_token_count=12a3"), vec![(TokenKind::Output, 12)]);
}

#[test]
fn counts_beyond_i64_add_zero() {
    assert_eq!(
        token_counts("tool_token_count=9223372036854775807 tool_token_count=9223372036854775808"),
        vec![(TokenKind::Tool, i64::MAX), (TokenKind::Tool, 0)]
    );
    assert_eq!(token_counts("input_token_count=0009"), vec![(TokenKind::Input, 9)]);
}

#[test]
fn adjacent_and_nested_fields() {
    assert_eq!(
        token_counts("input_token_count=1input_token_count=2"),
        vec![(TokenKind::Input, 1), (TokenKind::Input, 2)]
    );
    assert_eq!(
        token_counts("xinput_token_count=input_token_count=3"),
        vec![(TokenKind::Input, 3)]
    );
    assert_eq!(token_counts("tool_tool_token_count=4"), vec![(TokenKind::Tool, 4)]);
}

#[test]
fn scanner_agrees_with_regex() {
    let bodies = [
        "event.kind=response.completed input_token_count=40917 output_token_count=410 cached_token_count=39296 reasoning_token_count=32 tool_token_count=41327",
        "input_token_count=",
        "input_token_count=١٢ output_token_count=٣4",
        "output_token_count=12a3",
        "input_token_count=1input_token_count=2",
        "xinput_token_count=input_token_count=3",
        "tool_tool_token_count=4",
        "tool_token_count=99999999999999999999",
        "cached_token_count=0 reasoning_token_count=00 é input_token_count=𝟘𝟙",
        "inputoutput_token_count=8 reasoning_token_count_token_count=9",
        "ﾠinput_token_count=５",
    ];
    for body in bodies {
        assert_eq!(scanned(body), regex_counts(body), "{body:?}");
    }
}

#[test]
fn characters_in_order() {
    assert_eq!(chars_of("aé١"), vec!['a', 'é', '١']);
    assert!(chars_of("").is_empty());
}
