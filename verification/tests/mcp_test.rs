use tomegane::analysis::AnalysisMode;
use tomegane::error::Error;
use tomegane::extract::ffmpeg::CropRect;
use tomegane::tools::{tool_definitions, ParamDefault, ParamType};
use tomegane::mcp::{
    plan_reply, reply_error_code, CallParams, Reply,
    error_report, invalid_params_message, is_blank_line, max_frames_argument, method_not_found_message, parse_crop,
    parse_format, parse_mode, protocol_version, require_str, route_method, route_tool,
    should_answer, unknown_tool_report, RpcMethod, ToolName, METHOD_NOT_FOUND, PARSE_ERROR,
    INVALID_PARAMS,
};
use tomegane::ImageFormat;

#[test]
fn notifications_return_no_response() {
    let method = route_method("notifications/initialized");
    assert_eq!(method, RpcMethod::Initialized);
    assert!(!should_answer(method, false));
    assert!(!should_answer(method, true));
}

#[test]
fn handle_unknown_method_returns_error() {
    let method = route_method("unknown/method");
    assert_eq!(method, RpcMethod::Unknown);
    assert!(should_answer(method, true));
    assert_eq!(METHOD_NOT_FOUND, -32601);
    assert_eq!(method_not_found_message("unknown/method"), "Method not found: unknown/method");
}

#[test]
fn known_methods_route() {
    assert_eq!(route_method("initialize"), RpcMethod::Initialize);
    assert_eq!(route_method("tools/list"), RpcMethod::ToolsList);
    assert_eq!(route_method("tools/call"), RpcMethod::ToolsCall);
    assert_eq!(protocol_version(), "2024-11-05");
    assert_eq!(PARSE_ERROR, -32700);
    assert_eq!(INVALID_PARAMS, -32602);
    assert!(!should_answer(RpcMethod::ToolsList, false));
}

#[test]
fn tools_route_by_name() {
    assert_eq!(route_tool("analyze_video"), Some(ToolName::AnalyzeVideo));
    assert_eq!(route_tool("get_frame"), Some(ToolName::GetFrame));
    assert_eq!(route_tool("compare_frames"), Some(ToolName::CompareFrames));
    assert_eq!(route_tool("nope"), None);
    for t in [ToolName::AnalyzeVideo, ToolName::GetFrame, ToolName::CompareFrames] {
        assert_eq!(route_tool(t.name()), Some(t));
    }
}

#[test]
fn error_reports() {
    assert_eq!(error_report("video_not_found", "Video file not found: /x"), "[tomegane error:video_not_found] Video file not found: /x");
    assert_eq!(unknown_tool_report("nope"), "[tomegane error:unknown_tool] Unknown tool: nope");
}

#[test]
fn tool_arguments() {
    assert_eq!(parse_mode(None).unwrap(), AnalysisMode::Overview);
    assert_eq!(parse_mode(Some("performance")).unwrap(), AnalysisMode::Performance);
    match parse_mode(Some("fast")) {
        Err(Error::InvalidArgument(m)) => assert_eq!(m, "Invalid mode 'fast'. Expected one of: overview, performance"),
        other => panic!("unexpected {other:?}"),
    }
    assert_eq!(parse_format(None).unwrap(), ImageFormat::Png);
    assert_eq!(parse_format(Some("JPG")).unwrap(), ImageFormat::Jpg);
    assert!(matches!(parse_format(Some("gif")), Err(Error::InvalidFormat(_))));
    assert_eq!(parse_crop(None).unwrap(), None);
    assert_eq!(parse_crop(Some("0,0,16,16")).unwrap(), Some(CropRect { x: 0, y: 0, width: 16, height: 16 }));
    assert!(matches!(parse_crop(Some("0,0,0,16")), Err(Error::InvalidCrop(_))));
    assert_eq!(require_str(Some("/v.mp4"), "video_path").unwrap(), "/v.mp4");
    match require_str(None, "video_path") {
        Err(Error::InvalidArgument(m)) => assert_eq!(m, "Missing required parameter: video_path"),
        other => panic!("unexpected {other:?}"),
    }
    assert_eq!(max_frames_argument(None), 20);
    assert_eq!(max_frames_argument(Some(3)), 3);
}

#[test]
fn blank_lines() {
    assert!(is_blank_line("   \t"));
    assert!(is_blank_line(""));
    assert!(!is_blank_line(" {} "));
}

#[test]
fn refused_tool_calls_say_why() {
    assert_eq!(invalid_params_message(None), "Missing params");
    assert_eq!(
        invalid_params_message(Some("missing field `name`")),
        "Invalid params: missing field `name`"
    );
}

#[test]
fn handle_tools_list_returns_three_tools() {
    let tools = tool_definitions();
    assert_eq!(tools.len(), 3);
    let names: Vec<&str> = tools.iter().map(|t| t.tool.name()).collect();
    assert!(names.contains(&"analyze_video"));
    assert!(names.contains(&"get_frame"));
    assert!(names.contains(&"compare_frames"));
}

#[test]
fn tool_parameters_and_required_lists() {
    let tools = tool_definitions();
    assert_eq!(tools[0].required, vec!["video_path"]);
    assert_eq!(tools[1].required, vec!["video_path", "timestamp_seconds"]);
    assert_eq!(tools[2].required, vec!["video_path", "timestamp_a", "timestamp_b"]);
    let mode = tools[0].params.iter().find(|p| p.name == "mode").unwrap();
    assert_eq!(mode.kind, ParamType::Text);
    assert_eq!(mode.choices, vec!["overview", "performance"]);
    assert_eq!(mode.default, Some(ParamDefault::Text("overview")));
    let threshold = tools[0].params.iter().find(|p| p.name == "threshold").unwrap();
    assert_eq!(threshold.kind.schema_name(), "number");
    assert_eq!(threshold.default, Some(ParamDefault::Number("0.15")));
    assert_eq!(tools[0].params.len(), 9);
    assert_eq!(tools[2].params.last().unwrap().name, "crop");
}

#[test]
fn replies_follow_method_and_params() {
    assert_eq!(plan_reply(RpcMethod::Initialize, CallParams::Absent), Reply::ServerInfo);
    assert_eq!(plan_reply(RpcMethod::Initialized, CallParams::Absent), Reply::Nothing);
    assert_eq!(plan_reply(RpcMethod::ToolsList, CallParams::Absent), Reply::ToolList);
    assert_eq!(plan_reply(RpcMethod::ToolsCall, CallParams::WellFormed), Reply::RunTool);
    assert_eq!(plan_reply(RpcMethod::ToolsCall, CallParams::Absent), Reply::InvalidParams);
    assert_eq!(plan_reply(RpcMethod::ToolsCall, CallParams::Malformed), Reply::InvalidParams);
    assert_eq!(plan_reply(RpcMethod::Unknown, CallParams::Absent), Reply::MethodNotFound);
    assert_eq!(reply_error_code(Reply::InvalidParams), Some(INVALID_PARAMS));
    assert_eq!(reply_error_code(Reply::MethodNotFound), Some(METHOD_NOT_FOUND));
    assert_eq!(reply_error_code(Reply::ToolList), None);
}
