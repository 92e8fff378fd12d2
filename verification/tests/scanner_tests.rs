use tool_turn::scanner::check_if_continuation_needed;
use tool_turn::scanner::extract_all_tool_calls_from_xml;
use tool_turn::scanner::has_incomplete_tool_call;

#[test]
fn test_extract_single_call() {
    let buffer = "Let me check.\n<tool_call>\n{\"name\": \"time_get_current_time\", \"arguments\": {}}\n</tool_call>";
    let calls = extract_all_tool_calls_from_xml(buffer);
    assert_eq!(calls.len(), 1);
    assert_eq!(calls[0].name, "time_get_current_time");
    assert_eq!(calls[0].arguments, "{}");
}

#[test]
fn test_extract_calls_in_document_order() {
    let buffer = "first\
<tool_call>{\"name\": \"alpha\", \"arguments\": {\"x\": 1}}</tool_call>\
 middle \
<tool_call>{\"name\": \"beta\", \"arguments\": {}}</tool_call>\
<tool_call>{\"name\": \"gamma\", \"arguments\": {\"y\": \"z\"}}</tool_call>\
 tail";
    let calls = extract_all_tool_calls_from_xml(buffer);
    assert_eq!(calls.len(), 3);
    assert_eq!(calls[0].name, "alpha");
    assert_eq!(calls[0].arguments, "{\"x\":1}");
    assert_eq!(calls[1].name, "beta");
    assert_eq!(calls[2].name, "gamma");
    assert_eq!(calls[2].arguments, "{\"y\":\"z\"}");
}

#[test]
fn test_extract_malformed_json_yields_nothing() {
    let buffer = "<tool_call>{\"name\": \"x\", \"arguments\": {</tool_call>";
    let calls = extract_all_tool_calls_from_xml(buffer);
    assert!(calls.is_empty());
}

#[test]
fn test_extract_continues_past_malformed_block() {
    let buffer = "<tool_call>not json at all</tool_call>\
<tool_call>{\"name\": \"good\", \"arguments\": {}}</tool_call>";
    let calls = extract_all_tool_calls_from_xml(buffer);
    assert_eq!(calls.len(), 1);
    assert_eq!(calls[0].name, "good");
}

#[test]
fn test_extract_requires_both_fields() {
    let only_name = "<tool_call>{\"name\": \"x\"}</tool_call>";
    assert!(extract_all_tool_calls_from_xml(only_name).is_empty());
    let only_args = "<tool_call>{\"arguments\": {}}</tool_call>";
    assert!(extract_all_tool_calls_from_xml(only_args).is_empty());
    let name_not_string = "<tool_call>{\"name\": 3, \"arguments\": {}}</tool_call>";
    assert!(extract_all_tool_calls_from_xml(name_not_string).is_empty());
    let args_not_object = "<tool_call>{\"name\": \"x\", \"arguments\": 3}</tool_call>";
    assert!(extract_all_tool_calls_from_xml(args_not_object).is_empty());
}

#[test]
fn test_extract_ignores_unclosed_block() {
    let buffer = "text <tool_call>{\"name\": \"x\", \"arguments\": {}}";
    assert!(extract_all_tool_calls_from_xml(buffer).is_empty());
}

#[test]
fn test_has_incomplete_call_true() {
    assert!(has_incomplete_tool_call("...<tool_call>{\"name\":\"x\"}"));
}

#[test]
fn test_has_incomplete_call_false() {
    assert!(!has_incomplete_tool_call("...<tool_call>{...}</tool_call>"));
    assert!(!has_incomplete_tool_call("no tags here"));
}

#[test]
fn test_has_incomplete_call_last_tag_decides() {
    let closed_then_open = "<tool_call>{}</tool_call> and <tool_call>{\"na";
    assert!(has_incomplete_tool_call(closed_then_open));
}

#[test]
fn test_check_if_continuation_needed() {
    assert!(check_if_continuation_needed("a\n<tool_response>\n42\n</tool_response>"));
    assert!(!check_if_continuation_needed("plain answer with <tool_call></tool_call>"));
}
