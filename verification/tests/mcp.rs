use martin::mcp::{bridge_port, mcp_method, rpc_plan, RpcPlan, screenshot_content, screenshot_path, tool_route, McpMethod, ToolRoute};

#[test]
fn bridge_port_prefers_the_mcp_knob() {
    assert_eq!(bridge_port(None, None), 7878);
    assert_eq!(bridge_port(Some("9000"), Some("1234")), 9000);
    assert_eq!(bridge_port(None, Some(" 1234 ")), 1234);
    // a set but unreadable MARTIN_MCP_PORT does not fall back to MARTIN_SERVE
    assert_eq!(bridge_port(Some("abc"), Some("1234")), 7878);
    assert_eq!(bridge_port(None, Some("70000")), 7878);
    assert_eq!(bridge_port(None, Some("1")), 1);
}

#[test]
fn methods_are_classified() {
    assert_eq!(mcp_method("initialize"), McpMethod::Initialize);
    assert_eq!(mcp_method("tools/list"), McpMethod::ToolsList);
    assert_eq!(mcp_method("tools/call"), McpMethod::ToolsCall);
    assert_eq!(mcp_method("ping"), McpMethod::Ping);
    assert_eq!(mcp_method(""), McpMethod::Unknown);
    assert_eq!(mcp_method("notifications/initialized"), McpMethod::Unknown);
}

#[test]
fn screenshot_is_served_locally() {
    assert_eq!(tool_route("screenshot"), ToolRoute::Screenshot);
    assert_eq!(tool_route("camera"), ToolRoute::Bridge);
    assert_eq!(tool_route("Screenshot"), ToolRoute::Bridge);
    assert_eq!(screenshot_path(None), "/tmp/martin_mcp_shot.png");
    assert_eq!(screenshot_path(Some("/tmp/a.png")), "/tmp/a.png");
}

#[test]
fn screenshot_content_is_base64_and_a_caption() {
    let (data, caption) = screenshot_content(b"Man", "/x.png");
    assert_eq!(data, "TWFu");
    assert_eq!(caption, "screenshot /x.png (0 KiB)");
    assert_eq!(screenshot_content(b"Ma", "p").0, "TWE=");
    assert_eq!(screenshot_content(b"M", "p").0, "TQ==");
    assert_eq!(screenshot_content(&[0xff, 0xfe, 0x00, 0x10], "p").0, "//4AEA==");
    assert_eq!(screenshot_content(b"", "p").0, "");
    let big = vec![7u8; 3000];
    assert_eq!(screenshot_content(&big, "/s.png").1, "screenshot /s.png (2 KiB)");
}

#[test]
fn notifications_are_never_answered() {
    assert_eq!(
        rpc_plan("ping", true),
        RpcPlan { method: McpMethod::Ping, compute: true, reply: true }
    );
    // a known notification still runs (a tool call has effects) but gets no reply
    assert_eq!(
        rpc_plan("tools/call", false),
        RpcPlan { method: McpMethod::ToolsCall, compute: true, reply: false }
    );
    // an unknown request is answered with an empty result; an unknown notification is dropped
    assert_eq!(
        rpc_plan("resources/list", true),
        RpcPlan { method: McpMethod::Unknown, compute: true, reply: true }
    );
    assert_eq!(
        rpc_plan("notifications/initialized", false),
        RpcPlan { method: McpMethod::Unknown, compute: false, reply: false }
    );
}

#[test]
fn serve_port_written_by_the_cli_is_read_back() {
    for port in [0u16, 1, 80, 7878, 9090, u16::MAX] {
        let cli = martin::cli::Cli {
            serve: Some(Some(port)),
            ..Default::default()
        };
        let pairs = martin::cli::apply_cli(&cli);
        let serve = pairs
            .iter()
            .rev()
            .find(|(k, _)| k == "MARTIN_SERVE")
            .map(|(_, v)| v.as_str());
        assert_eq!(bridge_port(None, serve), port);
    }
}
