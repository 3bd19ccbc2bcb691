//! The tools the MCP server offers, with their parameters, as `tools/list`
//! describes them. The application writes each description out as a JSON
//! Schema object: `type` `object`, a `properties` entry per parameter
//! (`type`, `enum` when there are choices, `description`, `default`), and the
//! `required` list.

use vstd::prelude::*;

use crate::mcp::ToolName;

verus! {

/// The JSON type of a tool parameter.
#[derive(Debug, Clone, Copy, PartialEq, Eq, Structural)]
pub enum ParamType {
    Text,
    Number,
    Integer,
    Flag,
}

impl ParamType {
    /// The name of the type in JSON Schema.
    pub open spec fn schema_name_text(self) -> Seq<char> {
        match self {
            ParamType::Text => "string"@,
            ParamType::Number => "number"@,
            ParamType::Integer => "integer"@,
            ParamType::Flag => "boolean"@,
        }
    }

    /// The name of the type in JSON Schema.
    pub fn schema_name(self) -> (r: &'static str)
        ensures
            r@ == self.schema_name_text(),
    {
        match self {
            ParamType::Text => "string",
            ParamType::Number => "number",
            ParamType::Integer => "integer",
            ParamType::Flag => "boolean",
        }
    }
}

/// The default of a tool parameter; a number is kept as its text.
#[derive(Debug, Clone, Copy, PartialEq, Eq)]
pub enum ParamDefault {
    Number(&'static str),
    Integer(u64),
    Text(&'static str),
    Flag(bool),
}

/// A default, with its texts as character sequences.
pub enum DefaultValue {
    Number(Seq<char>),
    Integer(nat),
    Text(Seq<char>),
    Flag(bool),
}

/// The character view of a default.
pub open spec fn default_view(d: Option<ParamDefault>) -> Option<DefaultValue> {
    match d {
        Some(ParamDefault::Number(s)) => Some(DefaultValue::Number(s@)),
        Some(ParamDefault::Integer(n)) => Some(DefaultValue::Integer(n as nat)),
        Some(ParamDefault::Text(s)) => Some(DefaultValue::Text(s@)),
        Some(ParamDefault::Flag(b)) => Some(DefaultValue::Flag(b)),
        None => None,
    }
}

/// A parameter of a tool.
#[derive(Debug)]
pub struct ToolParam {
    pub name: &'static str,
    pub kind: ParamType,
    pub description: &'static str,
    /// The values the parameter may take, when it is limited to some.
    pub choices: Vec<&'static str>,
    pub default: Option<ParamDefault>,
}

/// A parameter, with its texts as character sequences: name, type,
/// description, choices and default.
pub type ParamView = (Seq<char>, ParamType, Seq<char>, Seq<Seq<char>>, Option<DefaultValue>);

/// The character view of a list of texts.
pub open spec fn texts_view(v: Seq<&'static str>) -> Seq<Seq<char>> {
    v.map_values(|s: &'static str| s@)
}

/// The character view of a parameter.
pub open spec fn param_view(p: ToolParam) -> ParamView {
    (p.name@, p.kind, p.description@, texts_view(p.choices@), default_view(p.default))
}

/// A tool as `tools/list` describes it.
#[derive(Debug)]
pub struct ToolDefinition {
    pub tool: ToolName,
    pub description: &'static str,
    /// The parameters, in the order they are listed.
    pub params: Vec<ToolParam>,
    /// The names of the parameters a call must give.
    pub required: Vec<&'static str>,
}

/// A tool, with its texts as character sequences: the tool, its
/// description, its parameters and the required names.
pub type ToolView = (ToolName, Seq<char>, Seq<ParamView>, Seq<Seq<char>>);

/// The character view of a tool.
pub open spec fn tool_view(t: ToolDefinition) -> ToolView {
    (t.tool, t.description@, t.params@.map_values(|p: ToolParam| param_view(p)), texts_view(t.required@))
}

/// The description of the crop parameter, shared by every tool.
pub open spec fn crop_description() -> Seq<char> {
    "Optional region-of-interest crop in x,y,w,h format"@
}

/// The parameters of `analyze_video`.
pub open spec fn analyze_video_params() -> Seq<ParamView> {
    seq![
        ("video_path"@, ParamType::Text, "Absolute path to the video file (mp4, mov, webm, mkv)"@, seq![], None),
        ("threshold"@, ParamType::Number, "Change threshold for smart frame selection (0.0-1.0). Lower values keep more frames. Default: 0.15"@, seq![], Some(DefaultValue::Number("0.15"@))),
        ("max_frames"@, ParamType::Integer, "Maximum number of frames to return. Default: 20"@, seq![], Some(DefaultValue::Integer(20))),
        ("interval"@, ParamType::Number, "Frame extraction interval in seconds. Lower values capture more detail but take longer. Default: 0.5"@, seq![], Some(DefaultValue::Number("0.5"@))),
        ("mode"@, ParamType::Text, "Analysis mode. Use performance to detect likely jank windows and localized repaint activity. Default: overview"@, seq!["overview"@, "performance"@], Some(DefaultValue::Text("overview"@))),
        ("crop"@, ParamType::Text, crop_description(), seq![], None),
        ("format"@, ParamType::Text, "Image format for extracted frames. Default: png"@, seq!["png"@, "jpg"@], Some(DefaultValue::Text("png"@))),
        ("include_image_data"@, ParamType::Flag, "Include inline image content blocks (base64). Set to false to keep the response small when you only need paths and metadata. Default: true"@, seq![], Some(DefaultValue::Flag(true))),
        ("output_dir"@, ParamType::Text, "Optional directory to persist extracted frames. When omitted, frames are written to a temp dir and paths remain valid only for the duration of this call."@, seq![], None),
    ]
}

/// The parameters of `get_frame`.
pub open spec fn get_frame_params() -> Seq<ParamView> {
    seq![
        ("video_path"@, ParamType::Text, "Absolute path to the video file"@, seq![], None),
        ("timestamp_seconds"@, ParamType::Number, "Timestamp in seconds to extract the frame from"@, seq![], None),
        ("crop"@, ParamType::Text, crop_description(), seq![], None),
    ]
}

/// The parameters of `compare_frames`.
pub open spec fn compare_frames_params() -> Seq<ParamView> {
    seq![
        ("video_path"@, ParamType::Text, "Absolute path to the video file"@, seq![], None),
        ("timestamp_a"@, ParamType::Number, "First timestamp in seconds"@, seq![], None),
        ("timestamp_b"@, ParamType::Number, "Second timestamp in seconds"@, seq![], None),
        ("crop"@, ParamType::Text, crop_description(), seq![], None),
    ]
}

/// The tools the server offers, in the order `tools/list` gives them.
pub open spec fn tool_catalog() -> Seq<ToolView> {
    seq![
        (ToolName::AnalyzeVideo, "Extract key frames from a screen recording or video file. Returns frames as images with timestamps and change scores. Use this to understand what happened in a video."@, analyze_video_params(), seq!["video_path"@]),
        (ToolName::GetFrame, "Extract a single frame from a video at a specific timestamp. Returns the frame as an image."@, get_frame_params(), seq!["video_path"@, "timestamp_seconds"@]),
        (ToolName::CompareFrames, "Compare two frames from a video at different timestamps. Returns both frames side by side with a similarity score."@, compare_frames_params(), seq!["video_path"@, "timestamp_a"@, "timestamp_b"@]),
    ]
}

/// A parameter with no choices and no default.
fn plain_param(name: &'static str, kind: ParamType, description: &'static str) -> (p: ToolParam)
    ensures
        param_view(p) == (name@, kind, description@, Seq::<Seq<char>>::empty(), None::<DefaultValue>),
{
    let p = ToolParam { name, kind, description, choices: Vec::new(), default: None };
    assert(texts_view(p.choices@) =~= Seq::<Seq<char>>::empty());
    p
}

/// The crop parameter, shared by every tool.
fn crop_param() -> (p: ToolParam)
    ensures
        param_view(p) == ("crop"@, ParamType::Text, crop_description(), Seq::<Seq<char>>::empty(), None::<DefaultValue>),
{
    plain_param("crop", ParamType::Text, "Optional region-of-interest crop in x,y,w,h format")
}

fn analyze_video_definition() -> (t: ToolDefinition)
    ensures
        tool_view(t) == tool_catalog()[0],
{
    let mode_choices: Vec<&'static str> = vec!["overview", "performance"];
    let format_choices: Vec<&'static str> = vec!["png", "jpg"];
    assert(texts_view(mode_choices@) =~= seq!["overview"@, "performance"@]);
    assert(texts_view(format_choices@) =~= seq!["png"@, "jpg"@]);
    let params = vec![
        plain_param("video_path", ParamType::Text, "Absolute path to the video file (mp4, mov, webm, mkv)"),
        ToolParam {
            name: "threshold",
            kind: ParamType::Number,
            description: "Change threshold for smart frame selection (0.0-1.0). Lower values keep more frames. Default: 0.15",
            choices: Vec::new(),
            default: Some(ParamDefault::Number("0.15")),
        },
        ToolParam {
            name: "max_frames",
            kind: ParamType::Integer,
            description: "Maximum number of frames to return. Default: 20",
            choices: Vec::new(),
            default: Some(ParamDefault::Integer(20)),
        },
        ToolParam {
            name: "interval",
            kind: ParamType::Number,
            description: "Frame extraction interval in seconds. Lower values capture more detail but take longer. Default: 0.5",
            choices: Vec::new(),
            default: Some(ParamDefault::Number("0.5")),
        },
        ToolParam {
            name: "mode",
            kind: ParamType::Text,
            description: "Analysis mode. Use performance to detect likely jank windows and localized repaint activity. Default: overview",
            choices: mode_choices,
            default: Some(ParamDefault::Text("overview")),
        },
        crop_param(),
        ToolParam {
            name: "format",
            kind: ParamType::Text,
            description: "Image format for extracted frames. Default: png",
            choices: format_choices,
            default: Some(ParamDefault::Text("png")),
        },
        ToolParam {
            name: "include_image_data",
            kind: ParamType::Flag,
            description: "Include inline image content blocks (base64). Set to false to keep the response small when you only need paths and metadata. Default: true",
            choices: Vec::new(),
            default: Some(ParamDefault::Flag(true)),
        },
        plain_param("output_dir", ParamType::Text, "Optional directory to persist extracted frames. When omitted, frames are written to a temp dir and paths remain valid only for the duration of this call."),
    ];
    let required: Vec<&'static str> = vec!["video_path"];
    let t = ToolDefinition {
        tool: ToolName::AnalyzeVideo,
        description: "Extract key frames from a screen recording or video file. Returns frames as images with timestamps and change scores. Use this to understand what happened in a video.",
        params,
        required,
    };
    assert(texts_view(Seq::<&'static str>::empty()) =~= Seq::<Seq<char>>::empty());
    assert(t.params@.map_values(|p: ToolParam| param_view(p)) =~= analyze_video_params());
    assert(texts_view(t.required@) =~= seq!["video_path"@]);
    t
}

fn get_frame_definition() -> (t: ToolDefinition)
    ensures
        tool_view(t) == tool_catalog()[1],
{
    let params = vec![
        plain_param("video_path", ParamType::Text, "Absolute path to the video file"),
        plain_param("timestamp_seconds", ParamType::Number, "Timestamp in seconds to extract the frame from"),
        crop_param(),
    ];
    let required: Vec<&'static str> = vec!["video_path", "timestamp_seconds"];
    let t = ToolDefinition {
        tool: ToolName::GetFrame,
        description: "Extract a single frame from a video at a specific timestamp. Returns the frame as an image.",
        params,
        required,
    };
    assert(t.params@.map_values(|p: ToolParam| param_view(p)) =~= get_frame_params());
    assert(texts_view(t.required@) =~= seq!["video_path"@, "timestamp_seconds"@]);
    t
}

fn compare_frames_definition() -> (t: ToolDefinition)
    ensures
        tool_view(t) == tool_catalog()[2],
{
    let params = vec![
        plain_param("video_path", ParamType::Text, "Absolute path to the video file"),
        plain_param("timestamp_a", ParamType::Number, "First timestamp in seconds"),
        plain_param("timestamp_b", ParamType::Number, "Second timestamp in seconds"),
        crop_param(),
    ];
    let required: Vec<&'static str> = vec!["video_path", "timestamp_a", "timestamp_b"];
    let t = ToolDefinition {
        tool: ToolName::CompareFrames,
        description: "Compare two frames from a video at different timestamps. Returns both frames side by side with a similarity score.",
        params,
        required,
    };
    assert(t.params@.map_values(|p: ToolParam| param_view(p)) =~= compare_frames_params());
    assert(texts_view(t.required@) =~= seq!["video_path"@, "timestamp_a"@, "timestamp_b"@]);
    t
}

/// The tools the server offers, as `tools/list` describes them.
pub fn tool_definitions() -> (t: Vec<ToolDefinition>)
    ensures
        t@.map_values(|d: ToolDefinition| tool_view(d)) == tool_catalog(),
{
    let t = vec![analyze_video_definition(), get_frame_definition(), compare_frames_definition()];
    assert(t@.map_values(|d: ToolDefinition| tool_view(d)) =~= tool_catalog());
    t
}

} // verus!
