use codex_limit_monitor::codex_rpc::{
    arrange_rate_limits, str_lt, CodexRpcError, ReadFailure, ResponseLine, RpcRequest, RpcSession, RpcStage, RpcStep,
};

type Payload = (f64, Option<u64>, Option<i64>, Option<String>);

#[test]
fn arranges_multi_bucket_rate_limits() {
    let by_id: Vec<(String, Payload)> = vec![
        ("codex".to_string(), (25.0, Some(15), Some(1730947200), None)),
        ("codex_other".to_string(), (42.0, Some(60), Some(1730950800), Some("codex_other".to_string()))),
    ];

    let buckets = arrange_rate_limits(Some(by_id), None);

    assert_eq!(buckets.len(), 2);
    assert_eq!(buckets[0].0, "codex");
    assert_eq!(buckets[0].1 .0, 25.0);
    assert_eq!(buckets[1].0, "codex_other");
    assert_eq!(buckets[1].1 .1, Some(60));
}

#[test]
fn buckets_are_sorted_by_limit_id_keeping_equal_ids_in_order() {
    let items = vec![
        ("zeta".to_string(), 1),
        ("alpha".to_string(), 2),
        ("mid".to_string(), 3),
        ("alpha".to_string(), 4),
        ("Zeta".to_string(), 5),
    ];
    let out = arrange_rate_limits(Some(items), Some(("single".to_string(), 9)));
    let order: Vec<i32> = out.iter().map(|b| b.1).collect();
    assert_eq!(order, vec![5, 2, 4, 3, 1]);
    let again = arrange_rate_limits(Some(out.clone()), None);
    assert_eq!(again, out);
}

#[test]
fn single_bucket_used_without_list() {
    let out = arrange_rate_limits::<u8>(None, Some(("codex".to_string(), 7)));
    assert_eq!(out, vec![("codex".to_string(), 7)]);
    let none = arrange_rate_limits::<u8>(None, None);
    assert!(none.is_empty());
}

#[test]
fn string_order_matches_std() {
    let words = ["", "a", "ab", "b", "B", "é", "z", "zz", "codex", "codex_other"];
    for a in words {
        for b in words {
            assert_eq!(str_lt(a, b), a < b, "{a:?} < {b:?}");
        }
    }
}

#[test]
fn session_runs_initialize_then_rate_limit_read() {
    let (mut session, first) = RpcSession::start();
    assert_eq!(first, vec![RpcRequest::Initialize]);
    assert_eq!(session.stage, RpcStage::Initializing);

    assert_eq!(session.on_line(r#"{"jsonrpc":"2.0","method":"log","params":{}}"#), RpcStep::ReadNext);
    assert_eq!(session.on_line(r#"{"jsonrpc":"2.0","id":1,"result":{}}"#), RpcStep::ReadNext);
    assert_eq!(session.stage, RpcStage::Initializing);

    assert_eq!(
        session.on_line(r#"{"jsonrpc":"2.0","id":0,"result":{"userAgent":"x"}}"#),
        RpcStep::Send(vec![RpcRequest::Initialized, RpcRequest::ReadRateLimits])
    );
    assert_eq!(session.stage, RpcStage::ReadingRateLimits);

    assert_eq!(session.on_line(r#"{"id":0,"result":{}}"#), RpcStep::ReadNext);
    match session.on_line(r#"{"id":1,"result":{"rateLimits":null}}"#) {
        RpcStep::Complete(text) => {
            assert_eq!(text, r#"{"rateLimits":null}"#);
        }
        other => panic!("unexpected step {other:?}"),
    }
    assert_eq!(session.stage, RpcStage::Finished);
}

#[test]
fn session_fails_on_error_answer() {
    let (mut session, _) = RpcSession::start();
    match session.on_line(r#"{"id":0,"error":{"code":-32601,"message":"nope"}}"#) {
        RpcStep::Fail(CodexRpcError::Rpc(e)) => {
            assert_eq!(e, r#"{"code":-32601,"message":"nope"}"#);
        }
        other => panic!("unexpected step {other:?}"),
    }
    assert_eq!(session.stage, RpcStage::Finished);
}

#[test]
fn session_fails_on_invalid_json_and_missing_result() {
    let (mut session, _) = RpcSession::start();
    match session.on_line("not json") {
        RpcStep::Fail(CodexRpcError::InvalidJson(_)) => {}
        other => panic!("unexpected step {other:?}"),
    }

    let (mut session, _) = RpcSession::start();
    session.on_line(r#"{"id":0,"result":{}}"#);
    assert_eq!(session.on_line(r#"{"id":1}"#), RpcStep::Fail(CodexRpcError::MissingResult));
}

#[test]
fn read_failures_map_to_errors() {
    let (mut session, _) = RpcSession::start();
    assert_eq!(session.on_read_failure(ReadFailure::TimedOut), CodexRpcError::Timeout);
    assert_eq!(session.stage, RpcStage::Finished);
    let (mut session, _) = RpcSession::start();
    assert_eq!(session.on_read_failure(ReadFailure::Closed), CodexRpcError::Closed);
    let (mut session, _) = RpcSession::start();
    assert_eq!(
        session.on_read_failure(ReadFailure::Io("broken pipe".to_string())),
        CodexRpcError::Spawn("broken pipe".to_string())
    );
}

#[test]
fn rpc_error_messages() {
    assert_eq!(CodexRpcError::Spawn("no such file".to_string()).message(), "failed to start Codex app-server: no such file");
    assert_eq!(CodexRpcError::MissingPipe.message(), "Codex app-server did not expose stdio");
    assert_eq!(CodexRpcError::Timeout.message(), "Codex app-server timed out");
    assert_eq!(CodexRpcError::Closed.message(), "Codex app-server closed stdout");
    assert_eq!(CodexRpcError::InvalidJson("eof".to_string()).message(), "invalid app-server JSON: eof");
    assert_eq!(CodexRpcError::Rpc("\"x\"".to_string()).message(), "app-server returned error: \"x\"");
    assert_eq!(CodexRpcError::MissingResult.message(), "app-server response was missing result");
}

#[test]
fn session_decides_on_parsed_answers() {
    let (mut session, _) = RpcSession::start();
    let answer = |id: Option<u64>, error: Option<&str>, result: Option<&str>| {
        Ok(ResponseLine {
            id,
            error: error.map(|e| e.to_string()),
            result: result.map(|r| r.to_string()),
        })
    };
    assert_eq!(session.on_response(answer(None, None, Some("{}"))), RpcStep::ReadNext);
    assert_eq!(session.on_response(answer(Some(7), Some("x"), None)), RpcStep::ReadNext);
    assert_eq!(
        session.on_response(answer(Some(0), None, None)),
        RpcStep::Send(vec![RpcRequest::Initialized, RpcRequest::ReadRateLimits])
    );
    assert_eq!(
        session.on_response(answer(Some(1), None, Some("[1]"))),
        RpcStep::Complete("[1]".to_string())
    );

    let (mut session, _) = RpcSession::start();
    assert_eq!(
        session.on_response(Err("expected value at line 1 column 1".to_string())),
        RpcStep::Fail(CodexRpcError::InvalidJson("expected value at line 1 column 1".to_string()))
    );
    assert_eq!(session.stage, RpcStage::Finished);

    let (mut session, _) = RpcSession::start();
    assert_eq!(
        session.on_response(answer(Some(0), Some("null"), None)),
        RpcStep::Fail(CodexRpcError::Rpc("null".to_string()))
    );
}
