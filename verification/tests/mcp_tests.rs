use tool_turn::mcp::AddServerRequest;
use tool_turn::mcp::McpConfig;
use tool_turn::mcp::McpServerConfig;
use tool_turn::mcp::McpServerInfo;
use tool_turn::mcp::TransportType;
use tool_turn::mcp::qualify_tool_name;
use tool_turn::mcp::split_qualified_tool_name;

fn stdio_config(command: &str) -> McpServerConfig {
    McpServerConfig {
        command: Some(command.to_string()),
        args: None,
        env: None,
        url: None,
    }
}

fn url_config(url: &str) -> McpServerConfig {
    McpServerConfig {
        command: None,
        args: None,
        env: None,
        url: Some(url.to_string()),
    }
}

fn empty_config() -> McpServerConfig {
    McpServerConfig { command: None, args: None, env: None, url: None }
}

#[test]
fn test_transport_type_detection() {
    assert_eq!(stdio_config("npx").get_transport_type(), TransportType::Stdio);
    assert_eq!(url_config("http://h/sse").get_transport_type(), TransportType::Sse);
    assert_eq!(url_config("http://h/mcp").get_transport_type(), TransportType::StreamableHttp);
    assert_eq!(url_config("http://h/other").get_transport_type(), TransportType::Sse);
    assert_eq!(empty_config().get_transport_type(), TransportType::Stdio);
}

#[test]
fn test_command_takes_precedence_over_url() {
    let both = McpServerConfig {
        command: Some("npx".to_string()),
        args: None,
        env: None,
        url: Some("http://h/sse".to_string()),
    };
    assert_eq!(both.get_transport_type(), TransportType::Stdio);
}

#[test]
fn test_validate_accepts_complete_configs() {
    assert!(stdio_config("npx").validate().is_ok());
    assert!(url_config("http://h/sse").validate().is_ok());
    assert!(url_config("http://h/mcp").validate().is_ok());
}

#[test]
fn test_validate_rejects_empty_config() {
    let err = empty_config().validate().unwrap_err();
    assert_eq!(err, "Stdio transport requires 'command' field");
}

#[test]
fn test_config_add_get_list_remove() {
    let mut config = McpConfig::default();
    config.add_server("time".to_string(), stdio_config("npx"));
    config.add_server("web".to_string(), url_config("http://h/sse"));

    let found = config.get_server("time").unwrap();
    assert_eq!(found.command.as_deref(), Some("npx"));
    assert!(config.get_server("absent").is_none());

    let listed = config.list_servers();
    assert_eq!(listed.len(), 2);
    assert_eq!(listed[0].0, "time");
    assert_eq!(listed[1].0, "web");

    let removed = config.remove_server("time").unwrap();
    assert_eq!(removed.command.as_deref(), Some("npx"));
    assert!(config.get_server("time").is_none());
    assert!(config.remove_server("time").is_none());
    assert_eq!(config.list_servers().len(), 1);
}

#[test]
fn test_config_add_replaces_same_name() {
    let mut config = McpConfig::default();
    config.add_server("s".to_string(), stdio_config("old"));
    config.add_server("s".to_string(), stdio_config("new"));
    assert_eq!(config.list_servers().len(), 1);
    assert_eq!(config.get_server("s").unwrap().command.as_deref(), Some("new"));
}

#[test]
fn test_split_qualified_tool_name() {
    let (server, tool) = split_qualified_tool_name("time_get_current_time").unwrap();
    assert_eq!(server, "time");
    assert_eq!(tool, "get_current_time");
}

#[test]
fn test_split_qualified_tool_name_rejects_plain_name() {
    let err = split_qualified_tool_name("plainname").unwrap_err();
    assert_eq!(err, "Invalid tool name format. Expected: server_toolname");
}

#[test]
fn test_qualify_then_split_round_trip() {
    let qualified = qualify_tool_name("clock", "get_current_time");
    assert_eq!(qualified, "clock_get_current_time");
    let (server, tool) = split_qualified_tool_name(&qualified).unwrap();
    assert_eq!(server, "clock");
    assert_eq!(tool, "get_current_time");
}

#[test]
fn test_into_config_carries_fields() {
    let request = AddServerRequest {
        name: "time".to_string(),
        command: Some("npx".to_string()),
        args: Some(vec!["-y".to_string(), "server".to_string()]),
        env: Some(vec![("K".to_string(), "V".to_string())]),
        url: None,
    };
    let (name, config) = request.into_config();
    assert_eq!(name, "time");
    assert_eq!(config.command.as_deref(), Some("npx"));
    assert_eq!(config.args.as_ref().unwrap().len(), 2);
    assert_eq!(config.env.as_ref().unwrap()[0].0, "K");
    assert!(config.url.is_none());
}

#[test]
fn test_describe_server_info_status() {
    let info = McpServerInfo::describe("s".to_string(), stdio_config("npx"), true);
    assert_eq!(info.status, "connected");
    assert!(info.tools.is_empty());
    let info = McpServerInfo::describe("s".to_string(), stdio_config("npx"), false);
    assert_eq!(info.status, "disconnected");
    assert_eq!(info.name, "s");
}
