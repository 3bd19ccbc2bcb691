//! Decisions of the `setup` helper that installs tomegane into MCP clients.
//!
//! Probing the system (running client commands, checking and reading files,
//! reading the environment) and writing files is the application's part.
//! Decided here: the scope names, where each client's configuration lives,
//! how a detection is reported, what to do with each detected client, how a
//! yes/no answer is read, and how each client's configuration is read and
//! edited to name tomegane.

use vstd::prelude::*;
use vstd::string::*;

use crate::json::{entry_set, find_key, key_index, lemma_key_index, object_entries, set_entry, Json};
use crate::text::{
    chars_of, lemma_lowercase_idempotent, lemma_trim_idempotent, lemma_trim_lowercase,
    to_ascii_lowercase, trim, trim_bounds, trim_end,
};
use crate::toml_doc::{
    new_toml, parse_toml, render_toml, toml_error_text, toml_has_key, toml_insert_empty_table,
    toml_parsed, toml_put_command, toml_table_contains, toml_tables, toml_text, TomlCommand,
    TomlTable,
};
use toml_edit::DocumentMut;

verus! {

/// The name under which tomegane registers itself.
pub open spec fn server_name_text() -> Seq<char> {
    "tomegane"@
}

/// The name under which tomegane registers itself.
pub fn server_name() -> (r: &'static str)
    ensures
        r@ == server_name_text(),
{
    "tomegane"
}

/// Where to install the MCP configuration.
#[derive(Debug, Clone, Copy, PartialEq, Eq, Structural)]
pub enum SetupScope {
    User,
    Project,
}

impl SetupScope {
    /// The name of the scope, as the client command lines and the messages
    /// spell it.
    pub open spec fn name_text(self) -> Seq<char> {
        match self {
            SetupScope::User => "user"@,
            SetupScope::Project => "project"@,
        }
    }

    /// The value of the `--scope` option of a client's `mcp add` command.
    pub fn as_claude_scope(self) -> (r: &'static str)
        ensures
            r@ == self.name_text(),
    {
        match self {
            SetupScope::User => "user",
            SetupScope::Project => "project",
        }
    }

    /// The name of the scope in messages.
    pub fn label(self) -> (r: &'static str)
        ensures
            r@ == self.name_text(),
    {
        match self {
            SetupScope::User => "user",
            SetupScope::Project => "project",
        }
    }
}

/// The MCP clients that setup knows.
#[derive(Debug, Clone, Copy, PartialEq, Eq, Structural)]
pub enum ClientKind {
    Cursor,
    Codex,
}

impl ClientKind {
    /// The display name of the client.
    pub open spec fn name_text(self) -> Seq<char> {
        match self {
            ClientKind::Cursor => "Cursor"@,
            ClientKind::Codex => "Codex"@,
        }
    }

    /// The display name of the client.
    pub fn name(self) -> (r: &'static str)
        ensures
            r@ == self.name_text(),
    {
        match self {
            ClientKind::Cursor => "Cursor",
            ClientKind::Codex => "Codex",
        }
    }
}

/// `PathBuf::push` of a relative component on Unix: a separator is added
/// unless the path is empty or already ends with one.
pub open spec fn path_join(base: Seq<char>, component: Seq<char>) -> Seq<char> {
    if base.len() == 0 || base.last() == '/' {
        base + component
    } else {
        base + "/"@ + component
    }
}

/// Appends a relative component to a path.
fn push_component(path: &mut String, component: &str)
    requires
        component@.len() > 0,
        component@[0] != '/',
    ensures
        final(path)@ == path_join(old(path)@, component@),
{
    let v = chars_of(path.as_str());
    if v.len() > 0 && v[v.len() - 1] != '/' {
        path.append("/");
    }
    path.append(component);
}

/// The Cursor configuration file: `~/.cursor/mcp.json` for the user scope,
/// `<cwd>/.cursor/mcp.json` for the project scope.
pub open spec fn cursor_config_text(scope: SetupScope, cwd: Seq<char>, home: Seq<char>) -> Seq<char> {
    let base = match scope {
        SetupScope::User => home,
        SetupScope::Project => cwd,
    };
    path_join(path_join(base, ".cursor"@), "mcp.json"@)
}

/// The path of Cursor's MCP configuration for a scope, given the working
/// directory and the home directory.
pub fn cursor_config_path(scope: SetupScope, cwd: &str, home: &str) -> (r: String)
    ensures
        r@ == cursor_config_text(scope, cwd@, home@),
{
    let mut path = String::new();
    match scope {
        SetupScope::User => path.append(home),
        SetupScope::Project => path.append(cwd),
    }
    assert(path@ == match scope {
        SetupScope::User => home@,
        SetupScope::Project => cwd@,
    }) by {
        assert(Seq::<char>::empty() + home@ =~= home@);
        assert(Seq::<char>::empty() + cwd@ =~= cwd@);
    }
    proof {
        reveal_strlit(".cursor");
        reveal_strlit("mcp.json");
    }
    push_component(&mut path, ".cursor");
    push_component(&mut path, "mcp.json");
    path
}

/// The Codex configuration file, `~/.codex/config.toml`.
pub open spec fn codex_config_text(home: Seq<char>) -> Seq<char> {
    path_join(path_join(home, ".codex"@), "config.toml"@)
}

/// The path of Codex's configuration, given the home directory.
pub fn codex_config_path(home: &str) -> (r: String)
    ensures
        r@ == codex_config_text(home@),
{
    let mut path = String::new();
    path.append(home);
    assert(Seq::<char>::empty() + home@ =~= home@);
    proof {
        reveal_strlit(".codex");
        reveal_strlit("config.toml");
    }
    push_component(&mut path, ".codex");
    push_component(&mut path, "config.toml");
    path
}

/// What setup found out about one client.
pub struct Detection {
    pub kind: ClientKind,
    pub available: bool,
    pub configured: bool,
    pub detail: String,
}

/// Reports on Cursor: its configuration can always be written, whether or
/// not `cursor-agent` runs; `configured` is whether the configuration at
/// `config_path` already names tomegane.
pub fn detect_cursor(cli_found: bool, config_path: &str, configured: bool) -> (d: Detection)
    ensures
        d.kind == ClientKind::Cursor,
        d.available,
        d.configured == configured,
        cli_found ==> d.detail@ == "`cursor-agent` found on PATH; config "@ + config_path@,
        !cli_found ==> d.detail@ == "`cursor-agent` not found, but config can still be written to "@
            + config_path@,
{
    let mut detail = String::new();
    if cli_found {
        detail.append("`cursor-agent` found on PATH; config ");
    } else {
        detail.append("`cursor-agent` not found, but config can still be written to ");
    }
    detail.append(config_path);
    assert(cli_found ==> detail@ =~= "`cursor-agent` found on PATH; config "@ + config_path@);
    assert(!cli_found ==> detail@ =~= "`cursor-agent` not found, but config can still be written to "@
        + config_path@);
    Detection { kind: ClientKind::Cursor, available: true, configured, detail }
}

/// Reports on Codex: only the user scope is supported; there it is
/// available when its configuration or its directory exists, and
/// `configured` is whether the configuration already names tomegane.
pub fn detect_codex(scope: SetupScope, config_path: &str, present: bool, configured: bool) -> (d:
    Detection)
    ensures
        d.kind == ClientKind::Codex,
        scope == SetupScope::Project ==> !d.available && !d.configured && d.detail@
            == "Codex MCP is currently supported only in user scope"@,
        scope == SetupScope::User ==> d.available == present && d.configured == configured
            && d.detail@ == "config "@ + config_path@,
{
    let mut detail = String::new();
    if scope == SetupScope::Project {
        detail.append("Codex MCP is currently supported only in user scope");
        assert(detail@ =~= "Codex MCP is currently supported only in user scope"@);
        return Detection { kind: ClientKind::Codex, available: false, configured: false, detail };
    }
    detail.append("config ");
    detail.append(config_path);
    assert(detail@ =~= "config "@ + config_path@);
    Detection { kind: ClientKind::Codex, available: present, configured, detail }
}

/// Why a client's existing configuration cannot take the tomegane entry.
#[derive(Debug, Clone, Copy, PartialEq, Eq, Structural)]
pub enum ConfigProblem {
    /// Cursor's file is not a JSON object.
    CursorRootNotObject,
    /// Cursor's `mcpServers` field is not a JSON object.
    CursorServersNotObject,
    /// Codex's `mcp_servers` field is not a TOML table.
    CodexServersNotTable,
}

/// The message refusing a configuration file at `path`.
pub open spec fn config_refusal_text(problem: ConfigProblem, path: Seq<char>) -> Seq<char> {
    match problem {
        ConfigProblem::CursorRootNotObject => "Cursor config at "@ + path + " is not a JSON object"@,
        ConfigProblem::CursorServersNotObject => "Cursor config at "@ + path
            + " has a non-object `mcpServers` field"@,
        ConfigProblem::CodexServersNotTable => "Codex config at "@ + path
            + " has a non-table `mcp_servers` field"@,
    }
}

/// Writes the message refusing a configuration file.
pub fn config_refusal(problem: ConfigProblem, path: &str) -> (r: String)
    ensures
        r@ == config_refusal_text(problem, path@),
{
    let mut r = String::new();
    match problem {
        ConfigProblem::CursorRootNotObject => {
            r.append("Cursor config at ");
            r.append(path);
            r.append(" is not a JSON object");
        },
        ConfigProblem::CursorServersNotObject => {
            r.append("Cursor config at ");
            r.append(path);
            r.append(" has a non-object `mcpServers` field");
        },
        ConfigProblem::CodexServersNotTable => {
            r.append("Codex config at ");
            r.append(path);
            r.append(" has a non-table `mcp_servers` field");
        },
    }
    assert(r@ =~= config_refusal_text(problem, path@));
    r
}

/// Whether a value is the entry that runs tomegane as an MCP server:
/// `{"command": <exe>, "args": ["mcp"]}`.
pub open spec fn is_server_entry(j: Json, exe: Seq<char>) -> bool {
    &&& j matches Json::Object(e)
    &&& e@.len() == 2
    &&& e@[0].0@ == "command"@
    &&& e@[0].1 matches Json::Str(c) && c@ == exe
    &&& e@[1].0@ == "args"@
    &&& e@[1].1 matches Json::Array(a) && a@.len() == 1 && (a@[0] matches Json::Str(m) && m@
        == "mcp"@)
}

/// The entry that runs the executable `exe` as tomegane's MCP server.
pub fn server_entry(exe: &str) -> (j: Json)
    ensures
        is_server_entry(j, exe@),
{
    Json::Object(
        vec![
            ("command".to_owned(), Json::Str(exe.to_owned())),
            ("args".to_owned(), Json::Array(vec![Json::Str("mcp".to_owned())])),
        ],
    )
}

/// Whether a Cursor configuration already names tomegane: its
/// `mcpServers` field is an object with a `tomegane` key.
pub open spec fn cursor_lists_server(root: Json) -> bool {
    &&& root matches Json::Object(e)
    &&& key_index(e@, "mcpServers"@) matches Some(i)
    &&& key_index(object_entries(e@[i].1), server_name_text()) is Some
    &&& e@[i].1 is Object
}

/// Reads whether a Cursor configuration already names tomegane.
pub fn cursor_has_entry(root: &Json) -> (b: bool)
    ensures
        b == cursor_lists_server(*root),
{
    match root {
        Json::Object(e) => match find_key(e, "mcpServers") {
            Some(i) => {
                proof {
                    lemma_key_index(e@, "mcpServers"@);
                }
                match &e[i].1 {
                    Json::Object(s) => find_key(s, server_name()).is_some(),
                    _ => false,
                }
            },
            None => false,
        },
        _ => false,
    }
}

/// Adds tomegane to a Cursor configuration: `mcpServers.tomegane` becomes
/// the entry running `exe`, `mcpServers` being created when absent, and
/// every other entry is kept. A configuration that is not an object, or
/// whose `mcpServers` is not an object, is refused.
pub fn merge_cursor_entry(root: Json, exe: &str) -> (r: Result<Json, ConfigProblem>)
    ensures
        match root {
            Json::Object(e) => {
                let servers = key_index(e@, "mcpServers"@);
                if servers matches Some(i) && !(e@[i].1 is Object) {
                    r == Err::<Json, ConfigProblem>(ConfigProblem::CursorServersNotObject)
                } else {
                    let old_servers = match servers {
                        Some(i) => object_entries(e@[i].1),
                        None => Seq::empty(),
                    };
                    r matches Ok(Json::Object(re)) && entry_set(
                        e@,
                        re@,
                        "mcpServers"@,
                        |v: Json|
                            v matches Json::Object(rs) && entry_set(
                                old_servers,
                                rs@,
                                server_name_text(),
                                |x: Json| is_server_entry(x, exe@),
                            ),
                    )
                }
            },
            _ => r == Err::<Json, ConfigProblem>(ConfigProblem::CursorRootNotObject),
        },
{
    match root {
        Json::Object(entries) => {
            let mut entries = entries;
            let ghost old = entries@;
            proof {
                lemma_key_index(old, "mcpServers"@);
            }
            match find_key(&entries, "mcpServers") {
                Some(i) => {
                    let (k, v) = entries.remove(i);
                    match v {
                        Json::Object(servers) => {
                            let ghost old_servers = servers@;
                            let servers = set_entry(servers, server_name(), server_entry(exe));
                            let ghost rs = servers@;
                            entries.insert(i, (k, Json::Object(servers)));
                            assert forall|j: int| 0 <= j < old.len() && j != i implies entries@[j]
                                == old[j] by {
                                if j < i {
                                } else {
                                }
                            }
                            assert(entries@[i as int].1 == Json::Object(servers));
                            Ok(Json::Object(entries))
                        },
                        _ => Err(ConfigProblem::CursorServersNotObject),
                    }
                },
                None => {
                    let servers = set_entry(Vec::new(), server_name(), server_entry(exe));
                    entries.push(("mcpServers".to_owned(), Json::Object(servers)));
                    assert forall|j: int| 0 <= j < old.len() implies entries@[j] == old[j] by {}
                    Ok(Json::Object(entries))
                },
            }
        },
        _ => Err(ConfigProblem::CursorRootNotObject),
    }
}

/// The start of the message for a configuration file at `path` whose text
/// is not TOML; the parser's description follows.
pub open spec fn toml_failure_prefix(path: Seq<char>) -> Seq<char> {
    "Failed to parse TOML in "@ + path + ": "@
}

/// Whether a message starts with `prefix`.
pub open spec fn starts_with(message: Seq<char>, prefix: Seq<char>) -> bool {
    message.len() >= prefix.len() && message.subrange(0, prefix.len() as int) == prefix
}

/// The message for a configuration file at `path` that does not parse.
fn toml_failure(path: &str, e: &toml_edit::TomlError) -> (m: String)
    ensures
        starts_with(m@, toml_failure_prefix(path@)),
{
    let mut m = String::new();
    m.append("Failed to parse TOML in ");
    m.append(path);
    m.append(": ");
    let ghost prefix = m@;
    let detail = toml_error_text(e);
    m.append(detail.as_str());
    assert(prefix =~= toml_failure_prefix(path@));
    assert(m@.subrange(0, prefix.len() as int) =~= prefix);
    m
}

/// What setup reads of a TOML document's top level.
pub type TomlTop = Map<Seq<char>, TomlTable>;

/// The entries of Codex's `mcp_servers` table; none when it is absent.
pub open spec fn codex_servers(tables: TomlTop) -> Map<Seq<char>, TomlCommand> {
    if tables.contains_key("mcp_servers"@) && tables["mcp_servers"@] is Some {
        tables["mcp_servers"@]->0
    } else {
        Map::empty()
    }
}

/// Whether Codex's configuration has an `mcp_servers` value that is not a
/// table, where no server can be added.
pub open spec fn codex_servers_blocked(tables: TomlTop) -> bool {
    tables.contains_key("mcp_servers"@) && tables["mcp_servers"@] is None
}

/// Whether a Codex configuration already names tomegane: its
/// `mcp_servers` table has a `tomegane` entry.
pub open spec fn codex_lists_server(tables: TomlTop) -> bool {
    tables.contains_key("mcp_servers"@) && tables["mcp_servers"@] is Some && codex_servers(
        tables,
    ).contains_key(server_name_text())
}

/// A Codex configuration with tomegane added: `mcp_servers.tomegane` is
/// the table `command = <exe>`, `args = ["mcp"]`, and every other value
/// stays.
pub open spec fn codex_installed(tables: TomlTop, exe: Seq<char>) -> TomlTop {
    tables.insert(
        "mcp_servers"@,
        Some(codex_servers(tables).insert(server_name_text(), Some((exe, seq!["mcp"@])))),
    )
}

/// Reads whether Codex's configuration already names tomegane, from the
/// text of the file at `path` (`None` when there is no file): no file, and a
/// file without an `mcp_servers` table, do not; a text that is not TOML is
/// an error.
pub fn codex_config_has_server(path: &str, text: Option<&str>) -> (r: Result<bool, String>)
    ensures
        match text {
            None => r == Ok::<bool, String>(false),
            Some(t) => match toml_parsed(t@) {
                None => r matches Err(m) && starts_with(m@, toml_failure_prefix(path@)),
                Some(tables) => r == Ok::<bool, String>(codex_lists_server(tables)),
            },
        },
{
    match text {
        None => Ok(false),
        Some(t) => match parse_toml(t) {
            Err(e) => Err(toml_failure(path, &e)),
            Ok(doc) => match toml_table_contains(&doc, "mcp_servers", server_name()) {
                Some(found) => Ok(found),
                None => Ok(false),
            },
        },
    }
}

/// Adds tomegane to a Codex configuration: the `mcp_servers` table, created
/// when absent, gets a `tomegane` table with `command = <exe>` and
/// `args = ["mcp"]`; everything else stays. An `mcp_servers` value that is
/// not a table is refused and nothing changes.
pub fn merge_codex_entry(doc: &mut DocumentMut, exe: &str) -> (r: Result<(), ConfigProblem>)
    ensures
        codex_servers_blocked(toml_tables(*old(doc))) ==> r == Err::<(), ConfigProblem>(
            ConfigProblem::CodexServersNotTable,
        ) && toml_tables(*final(doc)) == toml_tables(*old(doc)),
        !codex_servers_blocked(toml_tables(*old(doc))) ==> r is Ok && toml_tables(*final(doc))
            == codex_installed(toml_tables(*old(doc)), exe@),
{
    let ghost before = toml_tables(*doc);
    if !toml_has_key(doc, "mcp_servers") {
        toml_insert_empty_table(doc, "mcp_servers");
        assert(codex_installed(toml_tables(*doc), exe@) =~= codex_installed(before, exe@));
    }
    proof {
        reveal_strlit("mcp");
    }
    if toml_put_command(doc, "mcp_servers", server_name(), exe, "mcp") {
        Ok(())
    } else {
        Err(ConfigProblem::CodexServersNotTable)
    }
}

/// The new text of Codex's configuration at `path`, from its current text
/// (`None` when there is no file), with tomegane added to `mcp_servers`.
/// A text that is not TOML, and an `mcp_servers` value that is not a table,
/// are refused.
pub fn codex_config_update(path: &str, text: Option<&str>, exe: &str) -> (r: Result<String, String>)
    ensures
        match text {
            None => r is Ok,
            Some(t) => match toml_parsed(t@) {
                None => r matches Err(m) && starts_with(m@, toml_failure_prefix(path@)),
                Some(tables) => if codex_servers_blocked(tables) {
                    r matches Err(m) && m@ == config_refusal_text(
                        ConfigProblem::CodexServersNotTable,
                        path@,
                    )
                } else {
                    r is Ok
                },
            },
        },
        r matches Ok(s) ==> exists|d: DocumentMut|
            s@ == toml_text(d) && toml_tables(d) == codex_installed(
                match text {
                    Some(t) => toml_parsed(t@)->0,
                    None => Map::empty(),
                },
                exe@,
            ),
{
    let mut doc = match text {
        None => new_toml(),
        Some(t) => match parse_toml(t) {
            Err(e) => {
                return Err(toml_failure(path, &e));
            },
            Ok(doc) => doc,
        },
    };
    let ghost base = match text {
        Some(t) => toml_parsed(t@)->0,
        None => Map::<Seq<char>, TomlTable>::empty(),
    };
    proof {
        if text is None {
            assert(toml_tables(doc) =~= base);
        }
    }
    match merge_codex_entry(&mut doc, exe) {
        Ok(()) => {
            let s = render_toml(&doc);
            assert(s@ == toml_text(doc) && toml_tables(doc) == codex_installed(base, exe@));
            Ok(s)
        },
        Err(p) => Err(config_refusal(p, path)),
    }
}

/// Codex is installed in the user scope only; the project scope is refused.
pub fn check_codex_scope(scope: SetupScope) -> (r: Result<(), String>)
    ensures
        scope == SetupScope::User <==> r is Ok,
        r matches Err(m) ==> m@ == "Codex setup currently supports only user scope"@,
{
    if scope == SetupScope::User {
        Ok(())
    } else {
        let mut m = String::new();
        m.append("Codex setup currently supports only user scope");
        Err(m)
    }
}

/// What setup does with one detected client.
#[derive(Debug, Clone, Copy, PartialEq, Eq, Structural)]
pub enum SetupStep {
    /// Say that the client was not detected.
    ReportMissing,
    /// Say that tomegane is already configured there.
    AlreadyConfigured,
    /// Ask before installing.
    Ask,
    /// Install without asking.
    Install,
}

/// Chooses what to do with a detected client: nothing but a report when it is
/// missing or already configured, otherwise install, asking first unless
/// `yes` was given.
pub fn setup_step(available: bool, configured: bool, yes: bool) -> (s: SetupStep)
    ensures
        !available ==> s == SetupStep::ReportMissing,
        available && configured ==> s == SetupStep::AlreadyConfigured,
        available && !configured && yes ==> s == SetupStep::Install,
        available && !configured && !yes ==> s == SetupStep::Ask,
{
    if !available {
        SetupStep::ReportMissing
    } else if configured {
        SetupStep::AlreadyConfigured
    } else if yes {
        SetupStep::Install
    } else {
        SetupStep::Ask
    }
}

/// Whether an answer to a yes/no prompt is a yes: `y` or `yes`, ignoring
/// surrounding whitespace and ASCII case.
pub open spec fn is_yes(answer: Seq<char>) -> bool {
    let a = to_ascii_lowercase(trim(answer));
    a == "y"@ || a == "yes"@
}

/// An answer reads the same whatever its ASCII case and whatever white
/// space surrounds it; `y` and `yes` are yes, and `n` and an empty answer are
/// not.
pub proof fn lemma_yes_answers(answer: Seq<char>)
    ensures
        is_yes(answer) == is_yes(to_ascii_lowercase(answer)),
        is_yes(answer) == is_yes(trim(answer)),
        is_yes("y"@),
        is_yes("yes"@),
        is_yes("Y"@),
        is_yes("YES"@),
        !is_yes("n"@),
        !is_yes(Seq::<char>::empty()),
{
    lemma_trim_lowercase(answer);
    lemma_lowercase_idempotent(trim(answer));
    lemma_trim_idempotent(answer);
    reveal_strlit("y");
    reveal_strlit("yes");
    reveal_strlit("Y");
    reveal_strlit("YES");
    reveal_strlit("n");
    assert(trim("y"@) == "y"@);
    assert(to_ascii_lowercase("y"@) =~= "y"@);
    assert(trim("yes"@) == "yes"@) by {
        assert(trim_end("yes"@) == "yes"@);
    }
    assert(to_ascii_lowercase("yes"@) =~= "yes"@);
    assert(trim("Y"@) == "Y"@);
    assert(to_ascii_lowercase("Y"@) =~= "y"@);
    assert(trim("YES"@) == "YES"@) by {
        assert(trim_end("YES"@) == "YES"@);
    }
    assert(to_ascii_lowercase("YES"@) =~= "yes"@);
    assert(trim("n"@) == "n"@);
    assert(to_ascii_lowercase("n"@) =~= "n"@);
    assert(to_ascii_lowercase(Seq::<char>::empty()) =~= Seq::<char>::empty());
    assert(trim(Seq::<char>::empty()) == Seq::<char>::empty());
}

/// Reads the answer to a yes/no prompt.
pub fn answer_is_yes(answer: &str) -> (r: bool)
    ensures
        r == is_yes(answer@),
{
    let v = chars_of(answer);
    let (a, b) = trim_bounds(&v, 0, v.len());
    assert(v@.subrange(0, v.len() as int) =~= v@);
    let mut trimmed = String::new();
    let mut i = a;
    while i < b
        invariant
            a <= i <= b <= v.len(),
            trimmed@ == v@.subrange(a as int, i as int),
        decreases b - i,
    {
        crate::text::push_char(&mut trimmed, v[i]);
        i = i + 1;
        assert(trimmed@ =~= v@.subrange(a as int, i as int));
    }
    let lower = crate::text::ascii_lowercase(trimmed.as_str());
    crate::text::str_equal(lower.as_str(), "y") || crate::text::str_equal(lower.as_str(), "yes")
}

} // verus!
