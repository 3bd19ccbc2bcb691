use std::path::PathBuf;

use tomegane::json::Json;
use tomegane::setup::{
    codex_config_has_server, codex_config_update, cursor_has_entry, merge_cursor_entry,
    answer_is_yes, check_codex_scope, codex_config_path, config_refusal, ConfigProblem, cursor_config_path, detect_codex,
    detect_cursor, setup_step, ClientKind, SetupScope, SetupStep,
};

#[test]
fn cursor_project_path_uses_workspace() {
    let cwd = PathBuf::from("/tmp/project");
    let path = cursor_config_path(SetupScope::Project, &cwd.to_string_lossy(), "/home/someone");
    assert_eq!(PathBuf::from(path), PathBuf::from("/tmp/project/.cursor/mcp.json"));
}

#[test]
fn cursor_user_path_uses_home() {
    let path = cursor_config_path(SetupScope::User, "/tmp/project", "/home/someone/");
    assert_eq!(path, "/home/someone/.cursor/mcp.json");
}

#[test]
fn codex_path_is_in_home() {
    assert_eq!(codex_config_path("/root"), "/root/.codex/config.toml");
    assert_eq!(codex_config_path(""), ".codex/config.toml");
}

#[test]
fn scope_names() {
    assert_eq!(SetupScope::User.as_claude_scope(), "user");
    assert_eq!(SetupScope::Project.as_claude_scope(), "project");
    assert_eq!(SetupScope::Project.label(), "project");
    assert_eq!(ClientKind::Cursor.name(), "Cursor");
    assert_eq!(ClientKind::Codex.name(), "Codex");
}

#[test]
fn detections_report_what_was_found() {
    let cursor = detect_cursor(false, "/w/.cursor/mcp.json", false);
    assert!(cursor.available);
    assert_eq!(cursor.detail, "`cursor-agent` not found, but config can still be written to /w/.cursor/mcp.json");

    let codex_project = detect_codex(SetupScope::Project, "/h/.codex/config.toml", true, true);
    assert!(!codex_project.available);
    assert_eq!(codex_project.detail, "Codex MCP is currently supported only in user scope");
    let codex_user = detect_codex(SetupScope::User, "/h/.codex/config.toml", true, false);
    assert!(codex_user.available && !codex_user.configured);
    assert_eq!(codex_user.detail, "config /h/.codex/config.toml");
}

#[test]
fn setup_steps() {
    assert_eq!(setup_step(false, true, true), SetupStep::ReportMissing);
    assert_eq!(setup_step(true, true, false), SetupStep::AlreadyConfigured);
    assert_eq!(setup_step(true, false, true), SetupStep::Install);
    assert_eq!(setup_step(true, false, false), SetupStep::Ask);
}

#[test]
fn yes_answers() {
    assert!(answer_is_yes("y\n"));
    assert!(answer_is_yes("  YES "));
    assert!(!answer_is_yes("yess"));
    assert!(!answer_is_yes("\n"));
    assert!(!answer_is_yes("n"));
}

#[test]
fn unusable_configs_are_refused_by_name() {
    assert_eq!(
        config_refusal(ConfigProblem::CursorRootNotObject, "/h/.cursor/mcp.json"),
        "Cursor config at /h/.cursor/mcp.json is not a JSON object"
    );
    assert_eq!(
        config_refusal(ConfigProblem::CursorServersNotObject, "/h/.cursor/mcp.json"),
        "Cursor config at /h/.cursor/mcp.json has a non-object `mcpServers` field"
    );
    assert_eq!(
        config_refusal(ConfigProblem::CodexServersNotTable, "/h/.codex/config.toml"),
        "Codex config at /h/.codex/config.toml has a non-table `mcp_servers` field"
    );
    assert!(check_codex_scope(SetupScope::User).is_ok());
    assert_eq!(
        check_codex_scope(SetupScope::Project).unwrap_err(),
        "Codex setup currently supports only user scope"
    );
}

fn json_of(value: serde_json::Value) -> Json {
    match value {
        serde_json::Value::Null => Json::Null,
        serde_json::Value::Bool(b) => Json::Bool(b),
        serde_json::Value::Number(n) => Json::Number(n.to_string()),
        serde_json::Value::String(s) => Json::Str(s),
        serde_json::Value::Array(items) => Json::Array(items.into_iter().map(json_of).collect()),
        serde_json::Value::Object(entries) => {
            Json::Object(entries.into_iter().map(|(k, v)| (k, json_of(v))).collect())
        }
    }
}

fn entry<'a>(json: &'a Json, key: &str) -> Option<&'a Json> {
    match json {
        Json::Object(entries) => entries.iter().find(|(k, _)| k == key).map(|(_, v)| v),
        _ => None,
    }
}

#[test]
fn cursor_has_server_detects_existing_entry() {
    let text = r#"{
  "mcpServers": {
    "tomegane": {
      "command": "/bin/tomegane",
      "args": ["mcp"]
    }
  }
}"#;
    let root = json_of(serde_json::from_str(text).unwrap());
    assert!(cursor_has_entry(&root));
    let other = json_of(serde_json::from_str(r#"{"mcpServers": {"other": {}}}"#).unwrap());
    assert!(!cursor_has_entry(&other));
    let odd = json_of(serde_json::from_str(r#"{"mcpServers": ["tomegane"]}"#).unwrap());
    assert!(!cursor_has_entry(&odd));
    assert!(!cursor_has_entry(&Json::Array(vec![])));
}

#[test]
fn install_cursor_merges_config() {
    let text = r#"{
  "mcpServers": {
    "other": {
      "command": "echo"
    }
  }
}"#;
    let root = json_of(serde_json::from_str(text).unwrap());
    let merged = merge_cursor_entry(root, "/usr/local/bin/tomegane").unwrap();
    let servers = entry(&merged, "mcpServers").unwrap();
    assert!(entry(servers, "other").is_some());
    let ours = entry(servers, "tomegane").unwrap();
    assert_eq!(entry(ours, "command"), Some(&Json::Str("/usr/local/bin/tomegane".to_string())));
    assert_eq!(entry(ours, "args"), Some(&Json::Array(vec![Json::Str("mcp".to_string())])));
    assert!(cursor_has_entry(&merged));
}

#[test]
fn cursor_merge_creates_servers_and_refuses_other_shapes() {
    let merged = merge_cursor_entry(Json::Object(vec![]), "/t").unwrap();
    assert!(cursor_has_entry(&merged));
    assert_eq!(
        merge_cursor_entry(Json::Array(vec![]), "/t"),
        Err(ConfigProblem::CursorRootNotObject)
    );
    let bad = Json::Object(vec![("mcpServers".to_string(), Json::Bool(true))]);
    assert_eq!(merge_cursor_entry(bad, "/t"), Err(ConfigProblem::CursorServersNotObject));
}

#[test]
fn codex_has_server_detects_existing_entry() {
    let text = r#"[mcp_servers.tomegane]
command = "/bin/tomegane"
args = ["mcp"]
"#;
    assert_eq!(codex_config_has_server("/h/.codex/config.toml", Some(text)), Ok(true));
}

#[test]
fn codex_config_without_servers_or_file_is_not_configured() {
    assert_eq!(codex_config_has_server("/h/c.toml", None), Ok(false));
    assert_eq!(codex_config_has_server("/h/c.toml", Some("model = \"m\"\n")), Ok(false));
    assert_eq!(codex_config_has_server("/h/c.toml", Some("mcp_servers = 3\n")), Ok(false));
    let err = codex_config_has_server("/h/c.toml", Some("[[[")).unwrap_err();
    assert!(err.starts_with("Failed to parse TOML in /h/c.toml: "));
}

#[test]
fn install_codex_merges_config() {
    let text = r#"model = "gpt-5.4"

[mcp_servers.other]
command = "echo"
"#;
    let doc = codex_config_update("/h/.codex/config.toml", Some(text), "/usr/local/bin/tomegane")
        .unwrap();
    assert!(doc.contains("[mcp_servers.other]"));
    assert!(doc.contains("[mcp_servers.tomegane]"));
    assert!(doc.contains(r#"args = ["mcp"]"#));
    assert_eq!(codex_config_has_server("/h/.codex/config.toml", Some(&doc)), Ok(true));
}

#[test]
fn codex_update_creates_file_and_refuses_non_table() {
    let doc = codex_config_update("/h/c.toml", None, "/t").unwrap();
    assert!(doc.contains("[mcp_servers.tomegane]"));
    assert_eq!(
        codex_config_update("/h/c.toml", Some("mcp_servers = 3\n"), "/t").unwrap_err(),
        "Codex config at /h/c.toml has a non-table `mcp_servers` field"
    );
    assert!(codex_config_update("/h/c.toml", Some("[[["), "/t").is_err());
}

#[test]
fn codex_update_writes_command_and_args() {
    let doc = codex_config_update("/h/c.toml", Some("model = \"m\"\n"), "/usr/local/bin/tomegane")
        .unwrap();
    let parsed: toml_edit::DocumentMut = doc.parse().unwrap();
    let entry = parsed["mcp_servers"]["tomegane"].as_table().unwrap();
    assert_eq!(entry["command"].as_str(), Some("/usr/local/bin/tomegane"));
    let args = entry["args"].as_array().unwrap();
    assert_eq!(args.len(), 1);
    assert_eq!(args.get(0).and_then(|v| v.as_str()), Some("mcp"));
    assert_eq!(parsed["model"].as_str(), Some("m"));
}
