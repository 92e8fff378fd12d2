use tool_turn::request::HistoryEntry;
use tool_turn::request::Role;
use tool_turn::request::ToolDoc;
use tool_turn::request::assemble_continuation;
use tool_turn::request::assemble_request;
use tool_turn::request::default_system_prompt;
use tool_turn::request::effective_max_tokens;
use tool_turn::request::render_tools_block;
use tool_turn::request::system_message;

fn entry(role: &str, text: &str) -> HistoryEntry {
    HistoryEntry { role: role.to_string(), text: text.to_string() }
}

#[test]
fn test_assemble_orders_system_history_user() {
    let history = vec![entry("user", "hi"), entry("assistant", "hello")];
    let msgs = assemble_request("sys", &history, "what now?");
    assert_eq!(msgs.len(), 4);
    assert!(msgs[0].role == Role::System);
    assert_eq!(msgs[0].text, "sys");
    assert!(msgs[1].role == Role::User);
    assert_eq!(msgs[1].text, "hi");
    assert!(msgs[2].role == Role::Assistant);
    assert_eq!(msgs[2].text, "hello");
    assert!(msgs[3].role == Role::User);
    assert_eq!(msgs[3].text, "what now?");
}

#[test]
fn test_assemble_drops_duplicate_trailing_user_message() {
    let history = vec![entry("user", "hi"), entry("assistant", "hello"), entry("user", "again")];
    let msgs = assemble_request("sys", &history, "again");
    assert_eq!(msgs.len(), 4);
    assert_eq!(msgs[2].text, "hello");
    assert!(msgs[3].role == Role::User);
    assert_eq!(msgs[3].text, "again");
}

#[test]
fn test_assemble_keeps_matching_text_under_other_role() {
    let history = vec![entry("assistant", "again")];
    let msgs = assemble_request("sys", &history, "again");
    assert_eq!(msgs.len(), 3);
    assert!(msgs[1].role == Role::Assistant);
}

#[test]
fn test_assemble_skips_unknown_roles() {
    let history = vec![entry("tool", "noise"), entry("user", "hi"), entry("system", "noise")];
    let msgs = assemble_request("sys", &history, "q");
    assert_eq!(msgs.len(), 3);
    assert!(msgs[1].role == Role::User);
    assert_eq!(msgs[1].text, "hi");
}

#[test]
fn test_assemble_continuation_replays_and_appends_buffer() {
    let history = vec![entry("user", "hi")];
    let msgs = assemble_request("sys", &history, "what time?");
    let cont = assemble_continuation("sys", &msgs, "buffer with tool responses");
    assert_eq!(cont.len(), msgs.len() + 1);
    assert!(cont[0].role == Role::System);
    assert_eq!(cont[0].text, "sys");
    assert_eq!(cont[1].text, "hi");
    assert_eq!(cont[2].text, "what time?");
    assert!(cont[3].role == Role::Assistant);
    assert_eq!(cont[3].text, "buffer with tool responses");
}

#[test]
fn test_render_tools_block_empty_without_tools() {
    let tools: Vec<ToolDoc> = Vec::new();
    assert_eq!(render_tools_block(&tools), "");
}

#[test]
fn test_render_tools_block_template() {
    let tools = vec![
        ToolDoc {
            name: "time_get_current_time".to_string(),
            parameters: "{}".to_string(),
            description: "Current time".to_string(),
        },
        ToolDoc {
            name: "time_convert_time".to_string(),
            parameters: "{\"tz\": \"string\"}".to_string(),
            description: "Convert".to_string(),
        },
    ];
    let block = render_tools_block(&tools);
    assert!(block.starts_with("\n\n# Tools\n\n"));
    assert!(block.contains(
        "<tools>\ntime_get_current_time({}) - Current time\n\
time_convert_time({\"tz\": \"string\"}) - Convert\n</tools>"
    ));
    assert!(block.ends_with(
        "<tool_call>\n{\"name\": <function-name>, \"arguments\": <args-json-object>}\n</tool_call>"
    ));
}

#[test]
fn test_system_message_appends_tools_block() {
    let msg = system_message("base", "+tools");
    assert_eq!(msg, "base+tools");
}

#[test]
fn test_default_system_prompt_mentions_tools() {
    let prompt = default_system_prompt();
    assert!(prompt.starts_with("You are a helpful AI assistant"));
    assert!(prompt.contains("IMPORTANT RULES"));
}

#[test]
fn test_effective_max_tokens_bounds() {
    assert_eq!(effective_max_tokens(None), 1000);
    assert_eq!(effective_max_tokens(Some(50)), 100);
    assert_eq!(effective_max_tokens(Some(100)), 100);
    assert_eq!(effective_max_tokens(Some(2000)), 2000);
}
