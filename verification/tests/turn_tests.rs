use tool_turn::scanner::ToolCall;
use tool_turn::turn::TurnState;
use tool_turn::turn::invocation_arguments;
use tool_turn::turn::signature_of;

#[test]
fn test_second_identical_call_not_reinvoked() {
    let mut turn = TurnState::new();
    turn.append_delta(
        "<tool_call>{\"name\": \"t\", \"arguments\": {}}</tool_call>\
<tool_call>{\"name\": \"t\", \"arguments\": {}}</tool_call>",
    );
    let calls = turn.take_new_calls();
    assert_eq!(calls.len(), 1);
    assert_eq!(calls[0].name, "t");
    turn.append_delta("<tool_call>{\"name\": \"t\", \"arguments\": {}}</tool_call>");
    let again = turn.take_new_calls();
    assert!(again.is_empty());
}

#[test]
fn test_different_arguments_are_different_calls() {
    let mut turn = TurnState::new();
    turn.append_delta(
        "<tool_call>{\"name\": \"t\", \"arguments\": {\"a\": 1}}</tool_call>\
<tool_call>{\"name\": \"t\", \"arguments\": {\"a\": 2}}</tool_call>",
    );
    let calls = turn.take_new_calls();
    assert_eq!(calls.len(), 2);
    // Dispatch order is document order.
    assert_eq!(calls[0].arguments, "{\"a\":1}");
    assert_eq!(calls[1].arguments, "{\"a\":2}");
}

#[test]
fn test_rescan_after_tool_response_dispatches_nothing() {
    let mut turn = TurnState::new();
    turn.append_delta("<tool_call>{\"name\": \"t\", \"arguments\": {}}</tool_call>");
    let calls = turn.take_new_calls();
    assert_eq!(calls.len(), 1);
    turn.record_tool_success("ok");
    turn.append_delta(" more text");
    assert!(turn.take_new_calls().is_empty());
}

#[test]
fn test_tool_response_splice_and_single_continuation() {
    let mut turn = TurnState::new();
    turn.append_delta("<tool_call>{\"name\": \"t\", \"arguments\": {}}</tool_call>");
    let calls = turn.take_new_calls();
    assert_eq!(calls.len(), 1);
    let block = turn.record_tool_success("42");
    assert_eq!(block, "\n<tool_response>\n42\n</tool_response>");
    assert!(turn.response_text().contains("<tool_response>\n42\n</tool_response>"));
    assert!(turn.continuation_needed);
    assert!(turn.begin_continuation());
    assert!(!turn.begin_continuation());
}

#[test]
fn test_tool_error_splice_still_continues() {
    let mut turn = TurnState::new();
    turn.append_delta("<tool_call>{\"name\": \"t\", \"arguments\": {}}</tool_call>");
    turn.take_new_calls();
    let block = turn.record_tool_error("boom");
    assert_eq!(block, "\n<tool_response>\nError: boom\n</tool_response>");
    assert!(turn.response_text().contains("Error: boom"));
    assert!(turn.begin_continuation());
}

#[test]
fn test_stream_without_calls_never_continues() {
    let deltas = ["Hello", ", ", "world", "!"];
    let mut turn = TurnState::new();
    for delta in deltas {
        turn.append_delta(delta);
        assert!(turn.take_new_calls().is_empty());
    }
    turn.note_stream_finished();
    assert!(!turn.incomplete_on_finish);
    assert!(!turn.continuation_needed);
    assert!(!turn.begin_continuation());
    assert_eq!(turn.response_text(), "Hello, world!");
}

#[test]
fn test_incomplete_call_flagged_at_stream_end() {
    let mut turn = TurnState::new();
    turn.append_delta("thinking <tool_call>{\"name\": \"t\"");
    turn.note_stream_finished();
    assert!(turn.incomplete_on_finish);
    assert!(!turn.begin_continuation());
}

#[test]
fn test_continuation_output_appended_not_rescanned() {
    let mut turn = TurnState::new();
    turn.append_delta("<tool_call>{\"name\": \"t\", \"arguments\": {}}</tool_call>");
    turn.take_new_calls();
    turn.record_tool_success("7");
    assert!(turn.begin_continuation());
    turn.append_continuation("The answer is 7.");
    assert!(turn.response_text().ends_with("The answer is 7."));
    assert!(!turn.begin_continuation());
}

#[test]
fn test_continuation_error_annotation() {
    let mut turn = TurnState::new();
    turn.append_delta("<tool_call>{\"name\": \"t\", \"arguments\": {}}</tool_call>");
    turn.take_new_calls();
    turn.record_tool_success("7");
    assert!(turn.begin_continuation());
    let note = turn.record_continuation_error("connection reset");
    assert_eq!(note, "\n\n[Continuation Error: connection reset]");
    assert!(turn.response_text().ends_with("[Continuation Error: connection reset]"));
}

#[test]
fn test_invocation_arguments_strip_nulls() {
    let call = ToolCall {
        name: "t".to_string(),
        arguments: "{\"a\":null,\"b\":1}".to_string(),
    };
    assert_eq!(invocation_arguments(&call), "{\"b\":1}");
}

#[test]
fn test_invocation_arguments_unparseable_becomes_empty_object() {
    let call = ToolCall {
        name: "t".to_string(),
        arguments: "not json".to_string(),
    };
    assert_eq!(invocation_arguments(&call), "{}");
}

#[test]
fn test_signature_of_joins_name_and_arguments() {
    let call = ToolCall {
        name: "srv_tool".to_string(),
        arguments: "{\"a\":1}".to_string(),
    };
    assert_eq!(signature_of(&call), "srv_tool:{\"a\":1}");
}
