//! Decisions of the MCP server (JSON-RPC over standard input and output).
//!
//! Reading and writing JSON lines and building JSON values is the
//! application's part. Decided here: which method a request names, whether a
//! request is answered, the JSON-RPC error codes and messages, which tool a
//! call names, and how the tool arguments that are plain text are read.

use vstd::prelude::*;
use vstd::string::*;

use crate::analysis::AnalysisMode;
use crate::error::Error;
use crate::extract::ffmpeg::{crop_outcome, CropRect};
use crate::text::{chars_of, str_equal, to_ascii_lowercase, trim, trim_bounds};
use crate::ImageFormat;

verus! {

/// JSON-RPC error code for a line that is not JSON.
pub const PARSE_ERROR: i64 = -32700;

/// JSON-RPC error code for missing or malformed parameters.
pub const INVALID_PARAMS: i64 = -32602;

/// JSON-RPC error code for an unknown method.
pub const METHOD_NOT_FOUND: i64 = -32601;

/// The MCP protocol version the server speaks.
pub fn protocol_version() -> (r: &'static str)
    ensures
        r@ == "2024-11-05"@,
{
    "2024-11-05"
}

/// The methods the server knows.
#[derive(Debug, Clone, Copy, PartialEq, Eq, Structural)]
pub enum RpcMethod {
    Initialize,
    Initialized,
    ToolsList,
    ToolsCall,
    Unknown,
}

/// The method a request names.
pub open spec fn method_named(name: Seq<char>) -> RpcMethod {
    if name == "initialize"@ {
        RpcMethod::Initialize
    } else if name == "notifications/initialized"@ {
        RpcMethod::Initialized
    } else if name == "tools/list"@ {
        RpcMethod::ToolsList
    } else if name == "tools/call"@ {
        RpcMethod::ToolsCall
    } else {
        RpcMethod::Unknown
    }
}

/// The four MCP method names route to their methods, and no other name
/// routes to any of them.
pub proof fn lemma_method_names(name: Seq<char>)
    ensures
        method_named("initialize"@) == RpcMethod::Initialize,
        method_named("notifications/initialized"@) == RpcMethod::Initialized,
        method_named("tools/list"@) == RpcMethod::ToolsList,
        method_named("tools/call"@) == RpcMethod::ToolsCall,
        name != "initialize"@ && name != "notifications/initialized"@ && name != "tools/list"@ && name
            != "tools/call"@ ==> method_named(name) == RpcMethod::Unknown,
{
    reveal_strlit("initialize");
    reveal_strlit("notifications/initialized");
    reveal_strlit("tools/list");
    reveal_strlit("tools/call");
    assert("notifications/initialized"@[0] != "initialize"@[0]);
    assert("tools/list"@[0] != "initialize"@[0]);
    assert("tools/list"@[0] != "notifications/initialized"@[0]);
    assert("tools/call"@[0] != "initialize"@[0]);
    assert("tools/call"@[0] != "notifications/initialized"@[0]);
    assert("tools/call"@[6] != "tools/list"@[6]);
}

/// Routes a request by its method name.
pub fn route_method(name: &str) -> (r: RpcMethod)
    ensures
        r == method_named(name@),
{
    if str_equal(name, "initialize") {
        RpcMethod::Initialize
    } else if str_equal(name, "notifications/initialized") {
        RpcMethod::Initialized
    } else if str_equal(name, "tools/list") {
        RpcMethod::ToolsList
    } else if str_equal(name, "tools/call") {
        RpcMethod::ToolsCall
    } else {
        RpcMethod::Unknown
    }
}

/// Whether the server writes a response to a request: the `initialized`
/// notification is never answered, and requests without an id
/// (notifications) get no response.
pub open spec fn answered(method: RpcMethod, has_id: bool) -> bool {
    has_id && method != RpcMethod::Initialized
}

/// Whether the server writes a response to a request.
pub fn should_answer(method: RpcMethod, has_id: bool) -> (r: bool)
    ensures
        r == answered(method, has_id),
{
    has_id && method != RpcMethod::Initialized
}

/// A notification is never answered, whatever its method.
pub proof fn lemma_notifications_unanswered(method: RpcMethod)
    ensures
        !answered(method, false),
        !answered(RpcMethod::Initialized, true),
{
}

/// What the parameters of a `tools/call` request turned out to be.
#[derive(Debug, Clone, Copy, PartialEq, Eq, Structural)]
pub enum CallParams {
    /// The request has no parameters.
    Absent,
    /// The parameters are not a tool call (a name and optional arguments).
    Malformed,
    /// The parameters name a tool to call.
    WellFormed,
}

/// The reply to a request.
#[derive(Debug, Clone, Copy, PartialEq, Eq, Structural)]
pub enum Reply {
    /// The server's name, version and capabilities.
    ServerInfo,
    /// No reply at all.
    Nothing,
    /// The list of tools.
    ToolList,
    /// The result of calling the named tool.
    RunTool,
    /// An `INVALID_PARAMS` error; its message tells whether the parameters
    /// were absent or malformed.
    InvalidParams,
    /// A `METHOD_NOT_FOUND` error.
    MethodNotFound,
}

/// Chooses the reply to a request from its method and, for `tools/call`,
/// from what its parameters turned out to be (ignored for other methods).
pub fn plan_reply(method: RpcMethod, params: CallParams) -> (r: Reply)
    ensures
        r == match method {
            RpcMethod::Initialize => Reply::ServerInfo,
            RpcMethod::Initialized => Reply::Nothing,
            RpcMethod::ToolsList => Reply::ToolList,
            RpcMethod::ToolsCall => if params == CallParams::WellFormed {
                Reply::RunTool
            } else {
                Reply::InvalidParams
            },
            RpcMethod::Unknown => Reply::MethodNotFound,
        },
{
    match method {
        RpcMethod::Initialize => Reply::ServerInfo,
        RpcMethod::Initialized => Reply::Nothing,
        RpcMethod::ToolsList => Reply::ToolList,
        RpcMethod::ToolsCall => if params == CallParams::WellFormed {
            Reply::RunTool
        } else {
            Reply::InvalidParams
        },
        RpcMethod::Unknown => Reply::MethodNotFound,
    }
}

/// The JSON-RPC error code of a reply that is an error.
pub fn reply_error_code(r: Reply) -> (code: Option<i64>)
    ensures
        code == match r {
            Reply::InvalidParams => Some(INVALID_PARAMS),
            Reply::MethodNotFound => Some(METHOD_NOT_FOUND),
            _ => None::<i64>,
        },
{
    match r {
        Reply::InvalidParams => Some(INVALID_PARAMS),
        Reply::MethodNotFound => Some(METHOD_NOT_FOUND),
        _ => None,
    }
}

/// Every request that carries an id is answered, whatever its method, unless
/// it is the `initialized` notification; and a request is answered only
/// then.
pub proof fn lemma_requests_answered(method: RpcMethod, has_id: bool)
    ensures
        has_id && method != RpcMethod::Initialized ==> answered(method, has_id),
        answered(method, has_id) ==> has_id && method != RpcMethod::Initialized,
        answered(RpcMethod::Initialize, true),
        answered(RpcMethod::ToolsList, true),
        answered(RpcMethod::ToolsCall, true),
        answered(RpcMethod::Unknown, true),
{
}

/// Whether a line of input is skipped: blank lines carry no request.
pub fn is_blank_line(line: &str) -> (r: bool)
    ensures
        r == (trim(line@).len() == 0),
{
    let v = chars_of(line);
    let (a, b) = trim_bounds(&v, 0, v.len());
    assert(v@.subrange(0, v.len() as int) =~= v@);
    a == b
}

/// The error message for an unknown method.
pub fn method_not_found_message(name: &str) -> (r: String)
    ensures
        r@ == "Method not found: "@ + name@,
{
    let mut r = String::new();
    r.append("Method not found: ");
    r.append(name);
    assert(r@ =~= "Method not found: "@ + name@);
    r
}

/// The tools the server offers.
#[derive(Debug, Clone, Copy, PartialEq, Eq, Structural)]
pub enum ToolName {
    AnalyzeVideo,
    GetFrame,
    CompareFrames,
}

/// The tool a call names.
pub open spec fn tool_named(name: Seq<char>) -> Option<ToolName> {
    if name == "analyze_video"@ {
        Some(ToolName::AnalyzeVideo)
    } else if name == "get_frame"@ {
        Some(ToolName::GetFrame)
    } else if name == "compare_frames"@ {
        Some(ToolName::CompareFrames)
    } else {
        None
    }
}

/// Routes a tool call by the tool's name.
pub fn route_tool(name: &str) -> (r: Option<ToolName>)
    ensures
        r == tool_named(name@),
{
    if str_equal(name, "analyze_video") {
        Some(ToolName::AnalyzeVideo)
    } else if str_equal(name, "get_frame") {
        Some(ToolName::GetFrame)
    } else if str_equal(name, "compare_frames") {
        Some(ToolName::CompareFrames)
    } else {
        None
    }
}

impl ToolName {
    /// The name of the tool.
    pub open spec fn name_text(self) -> Seq<char> {
        match self {
            ToolName::AnalyzeVideo => "analyze_video"@,
            ToolName::GetFrame => "get_frame"@,
            ToolName::CompareFrames => "compare_frames"@,
        }
    }

    /// The name of the tool.
    pub fn name(self) -> (r: &'static str)
        ensures
            r@ == self.name_text(),
    {
        match self {
            ToolName::AnalyzeVideo => "analyze_video",
            ToolName::GetFrame => "get_frame",
            ToolName::CompareFrames => "compare_frames",
        }
    }
}

/// The three tool names call their tools, and no other name calls any.
pub proof fn lemma_tool_names(name: Seq<char>)
    ensures
        tool_named("analyze_video"@) == Some(ToolName::AnalyzeVideo),
        tool_named("get_frame"@) == Some(ToolName::GetFrame),
        tool_named("compare_frames"@) == Some(ToolName::CompareFrames),
        name != "analyze_video"@ && name != "get_frame"@ && name != "compare_frames"@ ==> tool_named(
            name,
        ) is None,
{
    reveal_strlit("analyze_video");
    reveal_strlit("get_frame");
    reveal_strlit("compare_frames");
    assert("get_frame"@[0] != "analyze_video"@[0]);
    assert("compare_frames"@[0] != "analyze_video"@[0]);
    assert("compare_frames"@[0] != "get_frame"@[0]);
}

/// Each tool's name routes back to that tool.
pub proof fn lemma_tool_names_route(t: ToolName)
    ensures
        tool_named(t.name_text()) == Some(t),
{
    reveal_strlit("analyze_video");
    reveal_strlit("get_frame");
    reveal_strlit("compare_frames");
    assert("get_frame"@[0] != "analyze_video"@[0]);
    assert("compare_frames"@[0] != "analyze_video"@[0]);
    assert("compare_frames"@[0] != "get_frame"@[0]);
}

/// The message of a refused `tools/call` request: `Missing params` when it
/// has none, `Invalid params: <reason>` when they are not a tool call.
pub fn invalid_params_message(reason: Option<&str>) -> (r: String)
    ensures
        match reason {
            None => r@ == "Missing params"@,
            Some(e) => r@ == "Invalid params: "@ + e@,
        },
{
    let mut r = String::new();
    match reason {
        None => {
            r.append("Missing params");
        },
        Some(e) => {
            r.append("Invalid params: ");
            r.append(e);
        },
    }
    r
}

/// The text of a failed tool call: `[tomegane error:<code>] <message>`.
pub open spec fn error_report_text(code: Seq<char>, message: Seq<char>) -> Seq<char> {
    "[tomegane error:"@ + code + "] "@ + message
}

/// Writes the text of a failed tool call from the error's code and message.
pub fn error_report(code: &str, message: &str) -> (r: String)
    ensures
        r@ == error_report_text(code@, message@),
{
    let mut r = String::new();
    r.append("[tomegane error:");
    r.append(code);
    r.append("] ");
    r.append(message);
    assert(r@ =~= error_report_text(code@, message@));
    r
}

/// The text of a call of an unknown tool.
pub fn unknown_tool_report(name: &str) -> (r: String)
    ensures
        r@ == error_report_text("unknown_tool"@, "Unknown tool: "@ + name@),
{
    let mut message = String::new();
    message.append("Unknown tool: ");
    message.append(name);
    error_report("unknown_tool", message.as_str())
}

/// Reads the optional `mode` argument: absent or `overview` is the overview,
/// `performance` the performance analysis; anything else is refused.
pub fn parse_mode(mode: Option<&str>) -> (r: Result<AnalysisMode, Error>)
    ensures
        match mode {
            None => r == Ok::<AnalysisMode, Error>(AnalysisMode::Overview),
            Some(m) => if m@ == "overview"@ {
                r == Ok::<AnalysisMode, Error>(AnalysisMode::Overview)
            } else if m@ == "performance"@ {
                r == Ok::<AnalysisMode, Error>(AnalysisMode::Performance)
            } else {
                r matches Err(Error::InvalidArgument(msg)) && msg@ == "Invalid mode '"@ + m@
                    + "'. Expected one of: overview, performance"@
            },
        },
{
    match mode {
        None => Ok(AnalysisMode::Overview),
        Some(m) => {
            if str_equal(m, "overview") {
                Ok(AnalysisMode::Overview)
            } else if str_equal(m, "performance") {
                Ok(AnalysisMode::Performance)
            } else {
                let mut msg = String::new();
                msg.append("Invalid mode '");
                msg.append(m);
                msg.append("'. Expected one of: overview, performance");
                Err(Error::InvalidArgument(msg))
            }
        },
    }
}

/// Reads the optional `format` argument: absent is PNG.
pub fn parse_format(format: Option<&str>) -> (r: Result<ImageFormat, Error>)
    ensures
        match format {
            None => r == Ok::<ImageFormat, Error>(ImageFormat::Png),
            Some(f) => match r {
                Ok(v) => ImageFormat::named(f@) == Some(v),
                Err(Error::InvalidFormat(n)) => ImageFormat::named(f@) is None && n@
                    == to_ascii_lowercase(f@),
                Err(_) => false,
            },
        },
{
    match format {
        None => Ok(ImageFormat::Png),
        Some(f) => ImageFormat::from_name(f),
    }
}

/// Reads the optional `crop` argument.
pub fn parse_crop(crop: Option<&str>) -> (r: Result<Option<CropRect>, Error>)
    ensures
        match crop {
            None => r matches Ok(None),
            Some(s) => match r {
                Ok(Some(c)) => crop_outcome(s@) == Ok::<CropRect, Seq<char>>(c),
                Err(Error::InvalidCrop(m)) => crop_outcome(s@) == Err::<CropRect, Seq<char>>(m@),
                _ => false,
            },
        },
{
    match crop {
        None => Ok(None),
        Some(s) => match CropRect::parse(s) {
            Ok(c) => Ok(Some(c)),
            Err(e) => Err(e),
        },
    }
}

/// Requires a text argument: a missing one is refused, naming the key.
pub fn require_str<'a>(value: Option<&'a str>, key: &str) -> (r: Result<&'a str, Error>)
    ensures
        match value {
            Some(v) => r == Ok::<&str, Error>(v),
            None => r matches Err(Error::InvalidArgument(msg)) && msg@
                == "Missing required parameter: "@ + key@,
        },
{
    match value {
        Some(v) => Ok(v),
        None => {
            let mut msg = String::new();
            msg.append("Missing required parameter: ");
            msg.append(key);
            Err(Error::InvalidArgument(msg))
        },
    }
}

/// The `max_frames` argument of `analyze_video`: 20 when absent.
pub fn max_frames_argument(value: Option<u64>) -> (r: usize)
    ensures
        r == (match value {
            Some(v) => v,
            None => 20,
        }) as usize,
{
    match value {
        Some(v) => v as usize,
        None => 20,
    }
}

} // verus!
