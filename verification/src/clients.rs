//! MCP clients, the server lists they hold, and how each server is routed.
use vstd::prelude::*;
use crate::json::{
    field_is_str, jview, jview_fields, jview_items, lemma_jview_fields, lemma_jview_items, vbool,
    vget, vget_str, vstr, Json, JsonV,
};
use crate::strmap::StrMap;

verus! {

/// How a client stores its MCP server list.
#[derive(Clone, Copy, PartialEq, Eq, Structural, Debug)]
pub enum Format {
    /// `{ "mcpServers": { "<name>": { "command", "args", "env" } } }`
    /// Used by: Cursor, Windsurf, Continue.dev
    Mcp,
    /// `{ "servers": { "<name>": { "type", "command", "args" } } }`
    /// Used by: VS Code 1.99+
    VsCode,
    /// `{ "context_servers": { "<name>": { "command": { "path", "args" } } } }`
    /// Used by: Zed
    ZedContext,
}

/// A client whose configuration file may list MCP servers.
#[derive(Debug)]
pub struct ClientDef {
    pub name: &'static str,
    /// The components of the configuration file's path: the base directory,
    /// then each name below it.
    pub config_path: Vec<String>,
    pub format: Format,
    pub restart_hint: &'static str,
}

/// How a configured server is reached.
#[derive(Clone, Copy, PartialEq, Eq, Structural, Debug)]
pub enum ServerStatus {
    /// Its command is `trimcp`.
    Proxied,
    /// A normal command, active.
    Direct,
    /// `disabled: true`.
    Disabled,
    /// A `serverUrl` or `url` field.
    Http,
}

/// A parsed server entry from a client config.
#[derive(Debug)]
pub struct ServerEntry {
    pub name: String,
    /// `None` for HTTP servers.
    pub command: Option<String>,
    pub args: Vec<String>,
    pub env: StrMap<String>,
    pub status: ServerStatus,
}

/// A detected client with its parsed server list.
#[derive(Debug)]
pub struct DetectedClient {
    pub def: ClientDef,
    /// Empty if the file was not found or lists no servers.
    pub servers: Vec<ServerEntry>,
}

// ── Parsing client configuration files ─────────────────────────────────────

/// What a parsed server entry holds.
pub struct EntryV {
    pub name: Seq<char>,
    pub command: Option<Seq<char>>,
    pub args: Seq<Seq<char>>,
    pub env: Map<Seq<char>, Seq<char>>,
    pub status: ServerStatus,
}

pub open spec fn string_views(v: Seq<String>) -> Seq<Seq<char>> {
    v.map_values(|s: String| s@)
}

pub open spec fn opt_string_view(o: Option<String>) -> Option<Seq<char>> {
    match o {
        Some(s) => Some(s@),
        None => None,
    }
}

pub open spec fn entry_view(e: ServerEntry) -> EntryV {
    EntryV {
        name: e.name@,
        command: opt_string_view(e.command),
        args: string_views(e.args@),
        env: e.env@.map_values(|s: String| s@),
        status: e.status,
    }
}

pub open spec fn entry_views(v: Seq<ServerEntry>) -> Seq<EntryV> {
    v.map_values(|e: ServerEntry| entry_view(e))
}

/// Whether the field `key` is `true`.
pub open spec fn flag(entry: JsonV, key: Seq<char>) -> bool {
    match vget(entry, key) {
        Some(v) => vbool(v) == Some(true),
        None => false,
    }
}

/// How a server entry is reached: by URL (HTTP), not at all (disabled),
/// through trimcp (proxied) or directly.
pub open spec fn server_status(entry: JsonV, command: Option<Seq<char>>) -> ServerStatus {
    if vget(entry, "serverUrl"@) is Some || vget(entry, "url"@) is Some {
        ServerStatus::Http
    } else if flag(entry, "disabled"@) {
        ServerStatus::Disabled
    } else if command == Some("trimcp"@) {
        ServerStatus::Proxied
    } else {
        ServerStatus::Direct
    }
}

/// The string items of an array, in order.
pub open spec fn string_items(items: Seq<JsonV>) -> Seq<Seq<char>>
    decreases items.len(),
{
    if items.len() == 0 {
        seq![]
    } else {
        let rest = string_items(items.drop_last());
        match vstr(items.last()) {
            Some(s) => rest.push(s),
            None => rest,
        }
    }
}

/// The string fields of an object as a map (a later field wins).
pub open spec fn string_fields(fs: Seq<(Seq<char>, JsonV)>) -> Map<Seq<char>, Seq<char>>
    decreases fs.len(),
{
    if fs.len() == 0 {
        Map::empty()
    } else {
        let rest = string_fields(fs.drop_last());
        match vstr(fs.last().1) {
            Some(s) => rest.insert(fs.last().0, s),
            None => rest,
        }
    }
}

/// The `args` of an entry: the strings of its `args` array.
pub open spec fn args_of(entry: JsonV) -> Seq<Seq<char>> {
    match vget(entry, "args"@) {
        Some(JsonV::Array(items)) => string_items(items),
        _ => seq![],
    }
}

/// The `env` of an entry: the string fields of its `env` object.
pub open spec fn env_of(entry: JsonV) -> Map<Seq<char>, Seq<char>> {
    match vget(entry, "env"@) {
        Some(JsonV::Object(fs)) => string_fields(fs),
        _ => Map::empty(),
    }
}

/// The entry named `name` in the `mcpServers` / VS Code `servers` layout.
pub open spec fn stdio_entry(name: Seq<char>, entry: JsonV) -> EntryV {
    let command = vget_str(entry, "command"@);
    EntryV {
        name: name,
        command: command,
        args: args_of(entry),
        env: env_of(entry),
        status: server_status(entry, command),
    }
}

/// The entry named `name` in Zed's `context_servers` layout, where the
/// command is an object `{ "path", "args" }`.
pub open spec fn zed_entry(name: Seq<char>, entry: JsonV) -> EntryV {
    let command = match vget(entry, "command"@) {
        Some(c) => vget_str(c, "path"@),
        None => None,
    };
    EntryV {
        name: name,
        command: command,
        args: match vget(entry, "command"@) {
            Some(c) => args_of(c),
            None => seq![],
        },
        env: env_of(entry),
        status: server_status(entry, command),
    }
}

/// The servers of `{ "mcpServers": { ... } }`.
pub open spec fn mcp_servers(json: JsonV) -> Seq<EntryV> {
    match vget(json, "mcpServers"@) {
        Some(JsonV::Object(fs)) => fs.map_values(|f: (Seq<char>, JsonV)| stdio_entry(f.0, f.1)),
        _ => seq![],
    }
}

/// The fields of `fs` other than SSE servers (`"type": "sse"`).
pub open spec fn non_sse(fs: Seq<(Seq<char>, JsonV)>) -> Seq<(Seq<char>, JsonV)> {
    fs.filter(|f: (Seq<char>, JsonV)| vget_str(f.1, "type"@) != Some("sse"@))
}

/// The servers of VS Code's `{ "servers": { ... } }`, SSE servers skipped.
pub open spec fn vscode_servers(json: JsonV) -> Seq<EntryV> {
    match vget(json, "servers"@) {
        Some(JsonV::Object(fs)) => non_sse(fs).map_values(|f: (Seq<char>, JsonV)| stdio_entry(f.0, f.1)),
        _ => seq![],
    }
}

/// The servers of Zed's `{ "context_servers": { ... } }`.
pub open spec fn zed_servers(json: JsonV) -> Seq<EntryV> {
    match vget(json, "context_servers"@) {
        Some(JsonV::Object(fs)) => fs.map_values(|f: (Seq<char>, JsonV)| zed_entry(f.0, f.1)),
        _ => seq![],
    }
}

/// The servers a client's configuration lists, by its format.
pub open spec fn servers_in(json: JsonV, format: Format) -> Seq<EntryV> {
    match format {
        Format::Mcp => mcp_servers(json),
        Format::VsCode => vscode_servers(json),
        Format::ZedContext => zed_servers(json),
    }
}

fn parse_server_status(entry: &Json, command: &Option<String>) -> (s: ServerStatus)
    ensures
        s == server_status(entry@, opt_string_view(*command)),
{
    if entry.get("serverUrl").is_some() || entry.get("url").is_some() {
        return ServerStatus::Http;
    }
    let disabled = match entry.get("disabled") {
        Some(v) => match v.as_bool() {
            Some(b) => b,
            None => false,
        },
        None => false,
    };
    if disabled {
        return ServerStatus::Disabled;
    }
    let proxied = match command {
        Some(c) => crate::compress::chars_eq(
            &crate::text::str_chars(c.as_str()),
            &crate::text::str_chars("trimcp"),
        ),
        None => false,
    };
    if proxied {
        ServerStatus::Proxied
    } else {
        ServerStatus::Direct
    }
}

/// The strings of an array value (other items skipped).
pub fn strings_of(items: &Vec<Json>) -> (r: Vec<String>)
    ensures
        string_views(r@) == string_items(jview_items(items@)),
{
    proof {
        lemma_jview_items(items@);
    }
    let ghost iv = jview_items(items@);
    let mut r: Vec<String> = Vec::new();
    let mut i: usize = 0;
    while i < items.len()
        invariant
            i <= items.len(),
            iv == jview_items(items@),
            iv.len() == items@.len(),
            forall|j: int| 0 <= j < items@.len() ==> #[trigger] iv[j] == jview(items@[j]),
            string_views(r@) == string_items(iv.take(i as int)),
        decreases items.len() - i,
    {
        assert(iv.take(i + 1).drop_last() =~= iv.take(i as int));
        assert(iv.take(i + 1).last() == jview(items@[i as int]));
        let ghost before = r@;
        match items[i].as_str() {
            Some(s) => {
                r.push(s.clone());
                assert(string_views(r@) =~= string_views(before).push(s@));
            },
            None => {},
        }
        i = i + 1;
    }
    assert(iv.take(items.len() as int) =~= iv);
    r
}

fn parse_args(entry: &Json) -> (r: Vec<String>)
    ensures
        string_views(r@) == args_of(entry@),
{
    match entry.get("args") {
        Some(v) => match v.as_array() {
            Some(items) => strings_of(items),
            None => {
                let r: Vec<String> = Vec::new();
                assert(string_views(r@) =~= Seq::<Seq<char>>::empty());
                r
            },
        },
        None => {
            let r: Vec<String> = Vec::new();
            assert(string_views(r@) =~= Seq::<Seq<char>>::empty());
            r
        },
    }
}

pub(crate) fn parse_env_pub(entry: &Json) -> (r: StrMap<String>)
    ensures
        r@.map_values(|s: String| s@) == env_of(entry@),
{
    let fields = match entry.get("env") {
        Some(v) => match v.as_object() {
            Some(fs) => fs,
            None => {
                let r = StrMap::new();
                assert(r@.map_values(|s: String| s@) =~= Map::<Seq<char>, Seq<char>>::empty());
                return r;
            },
        },
        None => {
            let r = StrMap::new();
            assert(r@.map_values(|s: String| s@) =~= Map::<Seq<char>, Seq<char>>::empty());
            return r;
        },
    };
    proof {
        lemma_jview_fields(fields@);
    }
    let ghost fv = jview_fields(fields@);
    let mut r: StrMap<String> = StrMap::new();
    assert(r@.map_values(|s: String| s@) =~= Map::<Seq<char>, Seq<char>>::empty());
    let mut i: usize = 0;
    while i < fields.len()
        invariant
            i <= fields.len(),
            fv == jview_fields(fields@),
            fv.len() == fields@.len(),
            forall|j: int| 0 <= j < fields@.len() ==> #[trigger] fv[j] == (fields@[j].0@, jview(fields@[j].1)),
            r@.map_values(|s: String| s@) == string_fields(fv.take(i as int)),
        decreases fields.len() - i,
    {
        assert(fv.take(i + 1).drop_last() =~= fv.take(i as int));
        assert(fv.take(i + 1).last() == fv[i as int]);
        let ghost before = r@;
        match fields[i].1.as_str() {
            Some(s) => {
                r.insert(fields[i].0.clone(), s.clone());
                assert(r@.map_values(|s: String| s@) =~= before.map_values(|s: String| s@).insert(
                    fields@[i as int].0@,
                    s@,
                ));
            },
            None => {},
        }
        i = i + 1;
    }
    assert(fv.take(fields.len() as int) =~= fv);
    r
}

fn stdio_entry_exec(name: &String, entry: &Json) -> (e: ServerEntry)
    ensures
        entry_view(e) == stdio_entry(name@, entry@),
{
    let command = match entry.get("command") {
        Some(c) => match c.as_str() {
            Some(s) => Some(s.clone()),
            None => None,
        },
        None => None,
    };
    let status = parse_server_status(entry, &command);
    ServerEntry { name: name.clone(), command, args: parse_args(entry), env: parse_env_pub(entry), status }
}

fn zed_entry_exec(name: &String, entry: &Json) -> (e: ServerEntry)
    ensures
        entry_view(e) == zed_entry(name@, entry@),
{
    let cmd_obj = entry.get("command");
    let command = match cmd_obj {
        Some(c) => match c.get("path") {
            Some(p) => match p.as_str() {
                Some(s) => Some(s.clone()),
                None => None,
            },
            None => None,
        },
        None => None,
    };
    let args = match cmd_obj {
        Some(c) => parse_args(c),
        None => {
            let r: Vec<String> = Vec::new();
            assert(string_views(r@) =~= Seq::<Seq<char>>::empty());
            r
        },
    };
    let status = parse_server_status(entry, &command);
    ServerEntry { name: name.clone(), command, args, env: parse_env_pub(entry), status }
}

/// Which layout a server list is parsed with.
enum Layout {
    Stdio,
    StdioSkipSse,
    Zed,
}

spec fn layout_entry(layout: Layout, name: Seq<char>, entry: JsonV) -> EntryV {
    match layout {
        Layout::Zed => zed_entry(name, entry),
        _ => stdio_entry(name, entry),
    }
}

spec fn layout_keeps(layout: Layout, entry: JsonV) -> bool {
    match layout {
        Layout::StdioSkipSse => vget_str(entry, "type"@) != Some("sse"@),
        _ => true,
    }
}

spec fn layout_servers(layout: Layout, fs: Seq<(Seq<char>, JsonV)>) -> Seq<EntryV>
    decreases fs.len(),
{
    if fs.len() == 0 {
        seq![]
    } else {
        let rest = layout_servers(layout, fs.drop_last());
        if layout_keeps(layout, fs.last().1) {
            rest.push(layout_entry(layout, fs.last().0, fs.last().1))
        } else {
            rest
        }
    }
}

proof fn lemma_layout_servers(layout: Layout, fs: Seq<(Seq<char>, JsonV)>)
    ensures
        layout is Stdio ==> layout_servers(layout, fs) == fs.map_values(
            |f: (Seq<char>, JsonV)| stdio_entry(f.0, f.1),
        ),
        layout is Zed ==> layout_servers(layout, fs) == fs.map_values(
            |f: (Seq<char>, JsonV)| zed_entry(f.0, f.1),
        ),
        layout is StdioSkipSse ==> layout_servers(layout, fs) == non_sse(fs).map_values(
            |f: (Seq<char>, JsonV)| stdio_entry(f.0, f.1),
        ),
    decreases fs.len(),
{
    reveal_with_fuel(Seq::filter, 1);
    if fs.len() > 0 {
        lemma_layout_servers(layout, fs.drop_last());
        assert(fs.map_values(|f: (Seq<char>, JsonV)| stdio_entry(f.0, f.1)) =~= fs.drop_last().map_values(
            |f: (Seq<char>, JsonV)| stdio_entry(f.0, f.1),
        ).push(stdio_entry(fs.last().0, fs.last().1)));
        assert(fs.map_values(|f: (Seq<char>, JsonV)| zed_entry(f.0, f.1)) =~= fs.drop_last().map_values(
            |f: (Seq<char>, JsonV)| zed_entry(f.0, f.1),
        ).push(zed_entry(fs.last().0, fs.last().1)));
        let p = |f: (Seq<char>, JsonV)| vget_str(f.1, "type"@) != Some("sse"@);
        assert(fs.filter(p) == if p(fs.last()) {
            fs.drop_last().filter(p).push(fs.last())
        } else {
            fs.drop_last().filter(p)
        });
        if p(fs.last()) {
            assert(non_sse(fs).map_values(|f: (Seq<char>, JsonV)| stdio_entry(f.0, f.1)) =~= non_sse(
                fs.drop_last(),
            ).map_values(|f: (Seq<char>, JsonV)| stdio_entry(f.0, f.1)).push(
                stdio_entry(fs.last().0, fs.last().1),
            ));
        }
    }
}

fn parse_servers_under(json: &Json, key: &str, layout: Layout) -> (r: Vec<ServerEntry>)
    ensures
        entry_views(r@) == match vget(json@, key@) {
            Some(JsonV::Object(fs)) => layout_servers(layout, fs),
            _ => seq![],
        },
{
    let fields = match json.get(key) {
        Some(v) => match v.as_object() {
            Some(fs) => fs,
            None => {
                let r: Vec<ServerEntry> = Vec::new();
                assert(entry_views(r@) =~= Seq::<EntryV>::empty());
                return r;
            },
        },
        None => {
            let r: Vec<ServerEntry> = Vec::new();
            assert(entry_views(r@) =~= Seq::<EntryV>::empty());
            return r;
        },
    };
    proof {
        lemma_jview_fields(fields@);
    }
    let ghost fv = jview_fields(fields@);
    let mut r: Vec<ServerEntry> = Vec::new();
    let mut i: usize = 0;
    assert(entry_views(r@) =~= Seq::<EntryV>::empty());
    while i < fields.len()
        invariant
            i <= fields.len(),
            fv == jview_fields(fields@),
            fv.len() == fields@.len(),
            forall|j: int| 0 <= j < fields@.len() ==> #[trigger] fv[j] == (fields@[j].0@, jview(fields@[j].1)),
            entry_views(r@) == layout_servers(layout, fv.take(i as int)),
        decreases fields.len() - i,
    {
        assert(fv.take(i + 1).drop_last() =~= fv.take(i as int));
        assert(fv.take(i + 1).last() == fv[i as int]);
        let name = &fields[i].0;
        let entry = &fields[i].1;
        let ghost before = r@;
        let keep = match layout {
            Layout::StdioSkipSse => !field_is_str(entry.get("type"), "sse"),
            _ => true,
        };
        if keep {
            let e = match layout {
                Layout::Zed => zed_entry_exec(name, entry),
                _ => stdio_entry_exec(name, entry),
            };
            r.push(e);
            assert(entry_views(r@) =~= entry_views(before).push(layout_entry(layout, name@, entry@)));
        }
        i = i + 1;
    }
    assert(fv.take(fields.len() as int) =~= fv);
    r
}

/// The servers of `{ "mcpServers": { "<name>": { "command", "args", "env" } } }`.
pub fn parse_mcp_servers(json: &Json) -> (r: Vec<ServerEntry>)
    ensures
        entry_views(r@) == mcp_servers(json@),
{
    let r = parse_servers_under(json, "mcpServers", Layout::Stdio);
    proof {
        if let Some(JsonV::Object(fs)) = vget(json@, "mcpServers"@) {
            lemma_layout_servers(Layout::Stdio, fs);
        }
    }
    r
}

/// The servers of `{ "servers": { "<name>": { "type", "command", "args" } } }`
/// (VS Code), SSE servers skipped.
pub fn parse_vscode_servers(json: &Json) -> (r: Vec<ServerEntry>)
    ensures
        entry_views(r@) == vscode_servers(json@),
{
    let r = parse_servers_under(json, "servers", Layout::StdioSkipSse);
    proof {
        if let Some(JsonV::Object(fs)) = vget(json@, "servers"@) {
            lemma_layout_servers(Layout::StdioSkipSse, fs);
        }
    }
    r
}

/// The servers of `{ "context_servers": { "<name>": { "command": { "path", "args" } } } }` (Zed).
pub fn parse_zed_servers(json: &Json) -> (r: Vec<ServerEntry>)
    ensures
        entry_views(r@) == zed_servers(json@),
{
    let r = parse_servers_under(json, "context_servers", Layout::Zed);
    proof {
        if let Some(JsonV::Object(fs)) = vget(json@, "context_servers"@) {
            lemma_layout_servers(Layout::Zed, fs);
        }
    }
    r
}

/// The servers a parsed client configuration lists, by the client's format.
pub fn parse_client_json(json: &Json, format: Format) -> (r: Vec<ServerEntry>)
    ensures
        entry_views(r@) == servers_in(json@, format),
{
    match format {
        Format::Mcp => parse_mcp_servers(json),
        Format::VsCode => parse_vscode_servers(json),
        Format::ZedContext => parse_zed_servers(json),
    }
}


/// The servers a client lists: those of its parsed configuration file, or
/// none where the file is missing, empty or unreadable.
pub open spec fn detected_servers(def: ClientDef, config: Option<Json>) -> Seq<EntryV> {
    match config {
        Some(j) => servers_in(j@, def.format),
        None => seq![],
    }
}

/// Pairs each known client with the servers its configuration lists.
/// `found` holds each client beside its configuration file, parsed, where
/// one exists that holds JSON.
pub fn detect_all(found: Vec<(ClientDef, Option<Json>)>) -> (r: Vec<DetectedClient>)
    ensures
        r@.len() == found@.len(),
        forall|i: int|
            0 <= i < r@.len() ==> {
                &&& (#[trigger] r@[i]).def == found@[i].0
                &&& entry_views(r@[i].servers@) == detected_servers(found@[i].0, found@[i].1)
            },
{
    let ghost input = found@;
    let mut rest = found;
    let mut out: Vec<DetectedClient> = Vec::new();
    while rest.len() > 0
        invariant
            out@.len() + rest@.len() == input.len(),
            rest@ == input.skip(out@.len() as int),
            forall|i: int|
                0 <= i < out@.len() ==> {
                    &&& (#[trigger] out@[i]).def == input[i].0
                    &&& entry_views(out@[i].servers@) == detected_servers(input[i].0, input[i].1)
                },
        decreases rest@.len(),
    {
        let ghost k = out@.len() as int;
        let (def, config) = rest.remove(0);
        assert(rest@ =~= input.skip(k + 1));
        let servers = match config {
            Some(j) => parse_client_json(&j, def.format),
            None => {
                let v: Vec<ServerEntry> = Vec::new();
                assert(entry_views(v@) =~= Seq::<EntryV>::empty());
                v
            },
        };
        out.push(DetectedClient { def, servers });
    }
    out
}


// ── Where each client keeps its configuration ──────────────────────────────

/// The operating system, which decides where desktop applications keep their
/// settings.
#[derive(Clone, Copy, PartialEq, Eq, Structural, Debug)]
pub enum Platform {
    MacOs,
    Linux,
    Windows,
    Other,
}

/// The directory a client's configuration path starts from.
#[derive(Clone, Copy, PartialEq, Eq, Structural, Debug)]
pub enum PathBase {
    /// The user's home directory.
    Home,
    /// Where desktop applications keep their settings: `Library/Application
    /// Support` under the home directory on macOS, `.config` on Linux, and
    /// `%APPDATA%` on Windows.
    AppSettings,
}

/// A known client and the location of its configuration file, as path
/// components below `base`.
#[derive(Debug)]
pub struct ClientLocation {
    pub name: &'static str,
    pub base: PathBase,
    pub segments: Vec<&'static str>,
    pub format: Format,
    pub restart_hint: &'static str,
}

/// What a client location holds.
pub struct LocationV {
    pub name: Seq<char>,
    pub base: PathBase,
    pub segments: Seq<Seq<char>>,
    pub format: Format,
    pub restart_hint: Seq<char>,
}

pub open spec fn location_view(l: ClientLocation) -> LocationV {
    LocationV {
        name: l.name@,
        base: l.base,
        segments: l.segments@.map_values(|s: &'static str| s@),
        format: l.format,
        restart_hint: l.restart_hint@,
    }
}

pub open spec fn location_views(ls: Seq<ClientLocation>) -> Seq<LocationV> {
    ls.map_values(|l: ClientLocation| location_view(l))
}

pub open spec fn home_loc(name: Seq<char>, segments: Seq<Seq<char>>, format: Format, hint: Seq<char>) -> LocationV {
    LocationV { name, base: PathBase::Home, segments, format, restart_hint: hint }
}

pub open spec fn app_loc(name: Seq<char>, segments: Seq<Seq<char>>, format: Format, hint: Seq<char>) -> LocationV {
    LocationV { name, base: PathBase::AppSettings, segments, format, restart_hint: hint }
}

/// The clients found at the same place below the home directory everywhere.
pub open spec fn home_clients() -> Seq<LocationV> {
    seq![
        home_loc("Cursor"@, seq![".cursor"@, "mcp.json"@], Format::Mcp, "Restart Cursor to apply changes."@),
        home_loc(
            "Windsurf"@,
            seq![".codeium"@, "windsurf"@, "mcp_config.json"@],
            Format::Mcp,
            "Restart Windsurf to apply changes."@,
        ),
        home_loc("Zed"@, seq![".config"@, "zed"@, "settings.json"@], Format::ZedContext, "Restart Zed to apply changes."@),
        home_loc(
            "Continue.dev"@,
            seq![".continue"@, "config.json"@],
            Format::Mcp,
            "Restart VS Code / JetBrains to apply changes."@,
        ),
    ]
}

/// The globalStorage settings file of a VS Code extension, below the
/// application settings directory.
pub open spec fn vscode_ext_segments(vscode: Seq<char>, extension_id: Seq<char>) -> Seq<Seq<char>> {
    seq![vscode, "User"@, "globalStorage"@, extension_id, "settings"@, "cline_mcp_settings.json"@]
}

/// The clients kept in the application settings directory.
pub open spec fn app_clients() -> Seq<LocationV> {
    seq![
        app_loc("VS Code"@, seq!["Code"@, "User"@, "mcp.json"@], Format::VsCode, "Restart VS Code to apply changes."@),
        app_loc(
            "VS Code Insiders"@,
            seq!["Code - Insiders"@, "User"@, "mcp.json"@],
            Format::VsCode,
            "Restart VS Code Insiders to apply changes."@,
        ),
        app_loc(
            "Roo Code"@,
            vscode_ext_segments("Code"@, "rooveterinaryinc.roo-cline"@),
            Format::Mcp,
            "Restart VS Code to apply Roo Code changes."@,
        ),
        app_loc(
            "Roo Code (Insiders)"@,
            vscode_ext_segments("Code - Insiders"@, "rooveterinaryinc.roo-cline"@),
            Format::Mcp,
            "Restart VS Code Insiders to apply Roo Code changes."@,
        ),
    ]
}

/// Every client known on `platform`, in the order they are listed.
pub open spec fn client_table(platform: Platform) -> Seq<LocationV> {
    match platform {
        Platform::Other => home_clients(),
        _ => home_clients() + app_clients(),
    }
}

fn location(
    name: &'static str,
    base: PathBase,
    segments: Vec<&'static str>,
    format: Format,
    restart_hint: &'static str,
) -> (l: ClientLocation)
    ensures
        l.name == name,
        l.base == base,
        l.segments == segments,
        l.format == format,
        l.restart_hint == restart_hint,
{
    ClientLocation { name, base, segments, format, restart_hint }
}

fn home_client_locations() -> (r: Vec<ClientLocation>)
    ensures
        location_views(r@) == home_clients(),
{
    let r = vec![
        location("Cursor", PathBase::Home, vec![".cursor", "mcp.json"], Format::Mcp, "Restart Cursor to apply changes."),
        location(
            "Windsurf",
            PathBase::Home,
            vec![".codeium", "windsurf", "mcp_config.json"],
            Format::Mcp,
            "Restart Windsurf to apply changes.",
        ),
        location("Zed", PathBase::Home, vec![".config", "zed", "settings.json"], Format::ZedContext, "Restart Zed to apply changes."),
        location(
            "Continue.dev",
            PathBase::Home,
            vec![".continue", "config.json"],
            Format::Mcp,
            "Restart VS Code / JetBrains to apply changes.",
        ),
    ];
    proof {
        assert forall|i: int| 0 <= i < r@.len() implies #[trigger] location_view(r@[i]) == home_clients()[i] by {
            assert(location_view(r@[i]).segments =~= home_clients()[i].segments);
        }
        assert(location_views(r@) =~= home_clients());
    }
    r
}

fn ext_segments(vscode: &'static str, extension_id: &'static str) -> (v: Vec<&'static str>)
    ensures
        v@.map_values(|s: &'static str| s@) == vscode_ext_segments(vscode@, extension_id@),
{
    let v = vec![vscode, "User", "globalStorage", extension_id, "settings", "cline_mcp_settings.json"];
    assert(v@.map_values(|s: &'static str| s@) =~= vscode_ext_segments(vscode@, extension_id@));
    v
}

fn app_client_locations() -> (r: Vec<ClientLocation>)
    ensures
        location_views(r@) == app_clients(),
{
    let r = vec![
        location("VS Code", PathBase::AppSettings, vec!["Code", "User", "mcp.json"], Format::VsCode, "Restart VS Code to apply changes."),
        location(
            "VS Code Insiders",
            PathBase::AppSettings,
            vec!["Code - Insiders", "User", "mcp.json"],
            Format::VsCode,
            "Restart VS Code Insiders to apply changes.",
        ),
        location(
            "Roo Code",
            PathBase::AppSettings,
            ext_segments("Code", "rooveterinaryinc.roo-cline"),
            Format::Mcp,
            "Restart VS Code to apply Roo Code changes.",
        ),
        location(
            "Roo Code (Insiders)",
            PathBase::AppSettings,
            ext_segments("Code - Insiders", "rooveterinaryinc.roo-cline"),
            Format::Mcp,
            "Restart VS Code Insiders to apply Roo Code changes.",
        ),
    ];
    proof {
        assert forall|i: int| 0 <= i < r@.len() implies #[trigger] location_view(r@[i]) == app_clients()[i] by {
            assert(location_view(r@[i]).segments =~= app_clients()[i].segments);
        }
        assert(location_views(r@) =~= app_clients());
    }
    r
}

/// Every client known on `platform`, with where its configuration lives.
pub fn client_locations(platform: Platform) -> (r: Vec<ClientLocation>)
    ensures
        location_views(r@) == client_table(platform),
{
    let mut r = home_client_locations();
    if platform != Platform::Other {
        let mut more = app_client_locations();
        let ghost a = r@;
        let ghost b = more@;
        r.append(&mut more);
        assert(r@ =~= a + b);
        assert(location_views(r@) =~= location_views(a) + location_views(b));
    }
    r
}

/// The directories a client's path starts with: the home directory, or the
/// application settings directory (`Library/Application Support` under home
/// on macOS, `.config` under home on Linux, `%APPDATA%` elsewhere).
pub open spec fn base_dirs(home: Seq<char>, appdata: Seq<char>, platform: Platform, base: PathBase) -> Seq<Seq<char>> {
    match base {
        PathBase::Home => seq![home],
        PathBase::AppSettings => match platform {
            Platform::MacOs => seq![home, "Library"@, "Application Support"@],
            Platform::Linux => seq![home, ".config"@],
            _ => seq![appdata],
        },
    }
}

/// The path components of a client's configuration file.
pub open spec fn config_components(home: Seq<char>, appdata: Seq<char>, platform: Platform, row: LocationV) -> Seq<Seq<char>> {
    base_dirs(home, appdata, platform, row.base) + row.segments
}

fn owned(s: &str) -> (r: String)
    ensures
        r@ == s@,
{
    s.to_owned()
}

fn base_dirs_exec(home: &str, appdata: &str, platform: Platform, base: PathBase) -> (r: Vec<String>)
    ensures
        string_views(r@) == base_dirs(home@, appdata@, platform, base),
{
    let r = match base {
        PathBase::Home => vec![owned(home)],
        PathBase::AppSettings => match platform {
            Platform::MacOs => vec![owned(home), owned("Library"), owned("Application Support")],
            Platform::Linux => vec![owned(home), owned(".config")],
            _ => vec![owned(appdata)],
        },
    };
    assert(string_views(r@) =~= base_dirs(home@, appdata@, platform, base));
    r
}

/// List all client definitions (regardless of whether config exists), given
/// the home directory, the `%APPDATA%` directory (read on Windows only) and
/// the platform.
pub fn all_client_defs(home: &str, appdata: &str, platform: Platform) -> (r: Vec<ClientDef>)
    ensures
        r@.len() == client_table(platform).len(),
        forall|i: int|
            0 <= i < r@.len() ==> {
                let row = #[trigger] client_table(platform)[i];
                &&& r@[i].name@ == row.name
                &&& r@[i].format == row.format
                &&& r@[i].restart_hint@ == row.restart_hint
                &&& string_views(r@[i].config_path@) == config_components(home@, appdata@, platform, row)
            },
{
    let locations = client_locations(platform);
    let ghost table = client_table(platform);
    let mut defs: Vec<ClientDef> = Vec::new();
    let mut i: usize = 0;
    while i < locations.len()
        invariant
            i <= locations.len(),
            location_views(locations@) == table,
            table == client_table(platform),
            defs@.len() == i,
            forall|j: int|
                0 <= j < i ==> {
                    &&& (#[trigger] defs@[j]).name@ == table[j].name
                    &&& defs@[j].format == table[j].format
                    &&& defs@[j].restart_hint@ == table[j].restart_hint
                    &&& string_views(defs@[j].config_path@) == config_components(home@, appdata@, platform, table[j])
                },
        decreases locations.len() - i,
    {
        let loc = &locations[i];
        assert(location_view(locations@[i as int]) == table[i as int]);
        let mut path = base_dirs_exec(home, appdata, platform, loc.base);
        let ghost start = string_views(path@);
        let mut k: usize = 0;
        while k < loc.segments.len()
            invariant
                k <= loc.segments.len(),
                string_views(path@) == start + loc.segments@.take(k as int).map_values(|s: &'static str| s@),
            decreases loc.segments.len() - k,
        {
            let ghost before = path@;
            path.push(owned(loc.segments[k]));
            assert(path@.drop_last() =~= before);
            assert(string_views(path@) =~= string_views(before).push(loc.segments@[k as int]@));
            assert(loc.segments@.take(k + 1).map_values(|s: &'static str| s@) =~= loc.segments@.take(k as int).map_values(
                |s: &'static str| s@,
            ).push(loc.segments@[k as int]@));
            assert(string_views(path@) =~= start + loc.segments@.take(k + 1).map_values(|s: &'static str| s@));
            k = k + 1;
        }
        assert(loc.segments@.take(loc.segments.len() as int) =~= loc.segments@);
        defs.push(ClientDef { name: loc.name, config_path: path, format: loc.format, restart_hint: loc.restart_hint });
        i = i + 1;
    }
    defs
}

} // verus!
