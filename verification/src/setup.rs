//! Importing the servers of an MCP client's configuration into trimcp's
//! configuration, and rewriting the client's entries to run through the
//! proxy.
use vstd::prelude::*;
use crate::clients::{args_of, env_of, flag, string_views, strings_of, Format};
use crate::compress::chars_eq;
use crate::config::{server_config_view, servers_view, Config, ServerConfig, ServerConfigV};
use crate::json::{
    clone_json, field_is_str, jview, jview_fields, lemma_jview_fields, vfield, vget, vget_str, Json,
    JsonV,
};
use crate::proxy::{lemma_set_field_found, lemma_set_field_missing, set_field};
use crate::strmap::StrMap;
use crate::text::{append_chars, str_chars, string_from_chars};

verus! {

/// What happened to one server entry of a client configuration.
#[derive(Clone, Copy, PartialEq, Eq, Structural, Debug)]
pub enum ImportOutcome {
    /// Its command is already `trimcp`.
    AlreadyProxied,
    /// `disabled: true`.
    Disabled,
    /// An HTTP server (`serverUrl` or `url`).
    Http,
    /// No string `command`.
    NoCommand,
    /// A VS Code SSE server.
    Sse,
    /// A Zed entry without a `command` object.
    NoCommandField,
    /// A Zed entry whose `command` has no string `path`.
    NoCommandPath,
    /// Imported into trimcp and rewritten to go through the proxy.
    Imported,
}

/// One entry's name, what happened to it, and (when imported) the command
/// line that was imported.
#[derive(Debug)]
pub struct ImportRecord {
    pub name: String,
    pub outcome: ImportOutcome,
    pub display: String,
}

/// The result of importing one client's servers.
#[derive(Debug)]
pub struct SetupReport {
    /// Whether the client's configuration has a server list.
    pub found: bool,
    /// How many servers were imported.
    pub imported: usize,
    pub records: Vec<ImportRecord>,
}

/// The key that holds the server list in each format.
pub open spec fn servers_key(format: Format) -> Seq<char> {
    match format {
        Format::Mcp => "mcpServers"@,
        Format::VsCode => "servers"@,
        Format::ZedContext => "context_servers"@,
    }
}

/// What happens to an entry of the `mcpServers` layout.
pub open spec fn stdio_outcome(entry: JsonV) -> ImportOutcome {
    if vget_str(entry, "command"@) == Some("trimcp"@) {
        ImportOutcome::AlreadyProxied
    } else if flag(entry, "disabled"@) {
        ImportOutcome::Disabled
    } else if vget(entry, "serverUrl"@) is Some || vget(entry, "url"@) is Some {
        ImportOutcome::Http
    } else if vget_str(entry, "command"@) is None {
        ImportOutcome::NoCommand
    } else {
        ImportOutcome::Imported
    }
}

/// What happens to an entry, by the client's format.
pub open spec fn outcome_of(format: Format, entry: JsonV) -> ImportOutcome {
    match format {
        Format::Mcp => stdio_outcome(entry),
        Format::VsCode => if vget_str(entry, "type"@) == Some("sse"@) {
            ImportOutcome::Sse
        } else {
            stdio_outcome(entry)
        },
        Format::ZedContext => {
            let cmd = vget(entry, "command"@);
            if cmd is Some && vget_str(cmd->0, "path"@) == Some("trimcp"@) {
                ImportOutcome::AlreadyProxied
            } else if cmd is None {
                ImportOutcome::NoCommandField
            } else if vget_str(cmd->0, "path"@) is None {
                ImportOutcome::NoCommandPath
            } else {
                ImportOutcome::Imported
            }
        },
    }
}

/// The server configuration imported from an entry.
pub open spec fn imported_config(format: Format, entry: JsonV) -> ServerConfigV {
    match format {
        Format::ZedContext => {
            let cmd = vget(entry, "command"@)->0;
            ServerConfigV { command: vget_str(cmd, "path"@)->0, args: args_of(cmd), env: env_of(entry) }
        },
        _ => ServerConfigV {
            command: vget_str(entry, "command"@)->0,
            args: args_of(entry),
            env: env_of(entry),
        },
    }
}

pub open spec fn jstr(s: Seq<char>) -> JsonV {
    JsonV::Str(s)
}

/// `["proxy", name]`.
pub open spec fn proxy_args(name: Seq<char>) -> JsonV {
    JsonV::Array(seq![jstr("proxy"@), jstr(name)])
}

/// The entry that replaces an imported one: the same server, run through
/// `trimcp proxy <name>`.
pub open spec fn replacement(format: Format, name: Seq<char>) -> JsonV {
    match format {
        Format::Mcp => JsonV::Object(seq![("command"@, jstr("trimcp"@)), ("args"@, proxy_args(name))]),
        Format::VsCode => JsonV::Object(
            seq![
                ("type"@, jstr("stdio"@)),
                ("command"@, jstr("trimcp"@)),
                ("args"@, proxy_args(name)),
            ],
        ),
        Format::ZedContext => JsonV::Object(
            seq![("command"@, JsonV::Object(seq![("path"@, jstr("trimcp"@)), ("args"@, proxy_args(name))]))],
        ),
    }
}

/// `words` separated by single spaces.
pub open spec fn join_spaced(words: Seq<Seq<char>>) -> Seq<char>
    decreases words.len(),
{
    if words.len() == 0 {
        seq![]
    } else if words.len() == 1 {
        words[0]
    } else {
        join_spaced(words.drop_last()) + seq![' '] + words.last()
    }
}

/// The command line shown for an imported server.
pub open spec fn display_of(c: ServerConfigV) -> Seq<char> {
    if c.args.len() == 0 {
        c.command
    } else {
        c.command + seq![' '] + join_spaced(c.args)
    }
}

/// What the report records of an entry.
pub struct RecordV {
    pub name: Seq<char>,
    pub outcome: ImportOutcome,
    pub display: Seq<char>,
}

pub open spec fn record_views(rs: Seq<ImportRecord>) -> Seq<RecordV> {
    rs.map_values(|r: ImportRecord| RecordV { name: r.name@, outcome: r.outcome, display: r.display@ })
}

/// Going through the entries in order: the rewritten entries, the servers
/// configuration, and the records.
pub open spec fn setup_scan(
    format: Format,
    fs: Seq<(Seq<char>, JsonV)>,
    servers: Map<Seq<char>, ServerConfigV>,
) -> (Seq<(Seq<char>, JsonV)>, Map<Seq<char>, ServerConfigV>, Seq<RecordV>)
    decreases fs.len(),
{
    if fs.len() == 0 {
        (seq![], servers, seq![])
    } else {
        let (fs2, m2, rep) = setup_scan(format, fs.drop_last(), servers);
        let name = fs.last().0;
        let entry = fs.last().1;
        let o = outcome_of(format, entry);
        if o == ImportOutcome::Imported {
            let c = imported_config(format, entry);
            (
                fs2.push((name, replacement(format, name))),
                m2.insert(name, c),
                rep.push(RecordV { name, outcome: o, display: display_of(c) }),
            )
        } else {
            (fs2.push((name, entry)), m2, rep.push(RecordV { name, outcome: o, display: seq![] }))
        }
    }
}

/// How many records say imported.
pub open spec fn count_imported(rep: Seq<RecordV>) -> nat
    decreases rep.len(),
{
    if rep.len() == 0 {
        0
    } else {
        count_imported(rep.drop_last()) + if rep.last().outcome == ImportOutcome::Imported {
            1nat
        } else {
            0nat
        }
    }
}

/// `v` with its object field `key` set to `x`.
pub open spec fn set_object_field(v: JsonV, key: Seq<char>, x: JsonV) -> JsonV {
    match v {
        JsonV::Object(fs) => JsonV::Object(set_field(fs, key, x)),
        _ => v,
    }
}

// ── Execution ───────────────────────────────────────────────────────────────

fn outcome_exec(format: Format, entry: &Json) -> (o: ImportOutcome)
    ensures
        o == outcome_of(format, entry@),
{
    match format {
        Format::ZedContext => {
            let cmd = entry.get("command");
            match cmd {
                Some(c) => {
                    let path = c.get("path");
                    if field_is_str(path, "trimcp") {
                        ImportOutcome::AlreadyProxied
                    } else {
                        match path {
                            Some(p) => if p.as_str().is_some() {
                                ImportOutcome::Imported
                            } else {
                                ImportOutcome::NoCommandPath
                            },
                            None => ImportOutcome::NoCommandPath,
                        }
                    }
                },
                None => ImportOutcome::NoCommandField,
            }
        },
        _ => {
            if format == Format::VsCode && field_is_str(entry.get("type"), "sse") {
                return ImportOutcome::Sse;
            }
            let command = entry.get("command");
            if field_is_str(command, "trimcp") {
                return ImportOutcome::AlreadyProxied;
            }
            let disabled = match entry.get("disabled") {
                Some(v) => v.as_bool() == Some(true),
                None => false,
            };
            if disabled {
                return ImportOutcome::Disabled;
            }
            if entry.get("serverUrl").is_some() || entry.get("url").is_some() {
                return ImportOutcome::Http;
            }
            match command {
                Some(c) => if c.as_str().is_some() {
                    ImportOutcome::Imported
                } else {
                    ImportOutcome::NoCommand
                },
                None => ImportOutcome::NoCommand,
            }
        },
    }
}

fn strings_field(obj: &Json, key: &str) -> (r: Vec<String>)
    ensures
        string_views(r@) == match vget(obj@, key@) {
            Some(JsonV::Array(items)) => crate::clients::string_items(items),
            _ => seq![],
        },
{
    match obj.get(key) {
        Some(v) => match v.as_array() {
            Some(items) => strings_of(items),
            None => {
                let r: Vec<String> = Vec::new();
                assert(string_views(r@) =~= Seq::<Seq<char>>::empty());
                r
            },
        },
        None => {
            let r: Vec<String> = Vec::new();
            assert(string_views(r@) =~= Seq::<Seq<char>>::empty());
            r
        },
    }
}

fn env_field(entry: &Json) -> (r: StrMap<String>)
    ensures
        r@.map_values(|s: String| s@) == env_of(entry@),
{
    crate::clients::parse_env_pub(entry)
}

/// The configuration imported from an entry whose outcome is `Imported`.
fn import_exec(format: Format, entry: &Json) -> (c: ServerConfig)
    requires
        outcome_of(format, entry@) == ImportOutcome::Imported,
    ensures
        server_config_view(c) == imported_config(format, entry@),
{
    let (command_holder, args) = match format {
        Format::ZedContext => {
            let cmd = entry.get("command").unwrap();
            (cmd.get("path").unwrap(), strings_field(cmd, "args"))
        },
        _ => (entry.get("command").unwrap(), strings_field(entry, "args")),
    };
    let command = command_holder.as_str().unwrap().clone();
    let c = ServerConfig { command, args, env: env_field(entry) };
    assert(c.args@.map_values(|a: String| a@) =~= string_views(c.args@));
    c
}

fn string_of(s: &str) -> (r: Json)
    ensures
        r@ == jstr(s@),
{
    Json::Str(s.to_owned())
}

fn proxy_args_exec(name: &String) -> (r: Json)
    ensures
        r@ == proxy_args(name@),
{
    let items = vec![string_of("proxy"), Json::Str(name.clone())];
    proof {
        crate::json::lemma_jview_items(items@);
        assert(crate::json::jview_items(items@) =~= seq![jstr("proxy"@), jstr(name@)]);
    }
    Json::Array(items)
}

fn replacement_exec(format: Format, name: &String) -> (r: Json)
    ensures
        r@ == replacement(format, name@),
{
    let fields: Vec<(String, Json)> = match format {
        Format::Mcp => vec![("command".to_owned(), string_of("trimcp")), ("args".to_owned(), proxy_args_exec(name))],
        Format::VsCode => vec![
            ("type".to_owned(), string_of("stdio")),
            ("command".to_owned(), string_of("trimcp")),
            ("args".to_owned(), proxy_args_exec(name)),
        ],
        Format::ZedContext => {
            let inner = vec![("path".to_owned(), string_of("trimcp")), ("args".to_owned(), proxy_args_exec(name))];
            proof {
                lemma_jview_fields(inner@);
                assert(jview_fields(inner@) =~= seq![("path"@, jstr("trimcp"@)), ("args"@, proxy_args(name@))]);
            }
            vec![("command".to_owned(), Json::Object(inner))]
        },
    };
    proof {
        lemma_jview_fields(fields@);
        match format {
            Format::Mcp => {
                assert(jview_fields(fields@) =~= seq![("command"@, jstr("trimcp"@)), ("args"@, proxy_args(name@))]);
            },
            Format::VsCode => {
                assert(jview_fields(fields@) =~= seq![
                    ("type"@, jstr("stdio"@)),
                    ("command"@, jstr("trimcp"@)),
                    ("args"@, proxy_args(name@)),
                ]);
            },
            Format::ZedContext => {
                assert(jview_fields(fields@) =~= seq![(
                    "command"@,
                    JsonV::Object(seq![("path"@, jstr("trimcp"@)), ("args"@, proxy_args(name@))]),
                )]);
            },
        }
    }
    Json::Object(fields)
}

fn join_spaced_exec(words: &Vec<String>) -> (r: Vec<char>)
    ensures
        r@ == join_spaced(string_views(words@)),
{
    let ghost ws = string_views(words@);
    let mut out: Vec<char> = Vec::new();
    let mut i: usize = 0;
    while i < words.len()
        invariant
            i <= words.len(),
            ws == string_views(words@),
            out@ == join_spaced(ws.take(i as int)),
        decreases words.len() - i,
    {
        assert(ws.take(i + 1).drop_last() =~= ws.take(i as int));
        assert(ws.take(i + 1).last() == words@[i as int]@);
        if i > 0 {
            out.push(' ');
        }
        append_chars(&mut out, &str_chars(words[i].as_str()));
        i = i + 1;
        assert(i == 1 ==> ws.take(i as int)[0] == words@[0]@);
    }
    assert(ws.take(words.len() as int) =~= ws);
    out
}

/// The command line of a server: its command and arguments separated by
/// spaces.
pub fn command_line(c: &ServerConfig) -> (r: String)
    ensures
        r@ == display_of(server_config_view(*c)),
{
    let mut out = str_chars(c.command.as_str());
    assert(c.args@.map_values(|a: String| a@) =~= string_views(c.args@));
    if c.args.len() > 0 {
        out.push(' ');
        append_chars(&mut out, &join_spaced_exec(&c.args));
    }
    string_from_chars(&out)
}

fn empty_string() -> (r: String)
    ensures
        r@ == Seq::<char>::empty(),
{
    String::new()
}

/// Imports the entries `entries` of a server list in `format`, returning the
/// rewritten entries and the records.
fn scan_entries(format: Format, entries: &Vec<(String, Json)>, config: &mut Config) -> (r: (Vec<(String, Json)>, Vec<ImportRecord>, usize))
    ensures
        ({
            let (fs2, m2, rep) = setup_scan(format, jview_fields(entries@), servers_view(old(config).servers@));
            &&& jview_fields(r.0@) == fs2
            &&& servers_view(final(config).servers@) == m2
            &&& record_views(r.1@) == rep
            &&& r.2 == count_imported(rep)
        }),
        final(config).compression == old(config).compression,
        final(config).metrics == old(config).metrics,
        final(config).cache == old(config).cache,
{
    proof {
        lemma_jview_fields(entries@);
    }
    let ghost fv = jview_fields(entries@);
    let ghost m0 = servers_view(config.servers@);
    let mut out: Vec<(String, Json)> = Vec::new();
    let mut records: Vec<ImportRecord> = Vec::new();
    let mut imported: usize = 0;
    let mut i: usize = 0;
    while i < entries.len()
        invariant
            i <= entries.len(),
            fv == jview_fields(entries@),
            fv.len() == entries@.len(),
            forall|j: int| 0 <= j < entries@.len() ==> #[trigger] fv[j] == (entries@[j].0@, jview(entries@[j].1)),
            m0 == servers_view(old(config).servers@),
            ({
                let (fs2, m2, rep) = setup_scan(format, fv.take(i as int), m0);
                &&& jview_fields(out@) == fs2
                &&& servers_view(config.servers@) == m2
                &&& record_views(records@) == rep
                &&& imported == count_imported(rep)
                &&& rep.len() == i
            }),
            imported <= i,
            config.compression == old(config).compression,
            config.metrics == old(config).metrics,
            config.cache == old(config).cache,
        decreases entries.len() - i,
    {
        assert(fv.take(i + 1).drop_last() =~= fv.take(i as int));
        assert(fv.take(i + 1).last() == fv[i as int]);
        let name = &entries[i].0;
        let entry = &entries[i].1;
        let ghost before_out = out@;
        let ghost before_records = records@;
        let ghost before_servers = config.servers@;
        let outcome = outcome_exec(format, entry);
        let ghost prev = setup_scan(format, fv.take(i as int), m0);
        if outcome == ImportOutcome::Imported {
            let c = import_exec(format, entry);
            let display = command_line(&c);
            let ghost cv = server_config_view(c);
            config.servers.insert(name.clone(), c);
            assert(servers_view(config.servers@) =~= servers_view(before_servers).insert(name@, cv));
            let rep_entry = replacement_exec(format, name);
            out.push((name.clone(), rep_entry));
            records.push(ImportRecord { name: name.clone(), outcome, display });
            imported = imported + 1;
            proof {
                assert(out@.drop_last() =~= before_out);
                assert(jview_fields(out@) =~= prev.0.push((name@, replacement(format, name@))));
                assert(records@.drop_last() =~= before_records);
                assert(record_views(records@) =~= prev.2.push(
                    RecordV { name: name@, outcome, display: display_of(cv) },
                ));
            }
        } else {
            out.push((name.clone(), clone_json(entry)));
            records.push(ImportRecord { name: name.clone(), outcome, display: empty_string() });
            proof {
                assert(out@.drop_last() =~= before_out);
                assert(jview_fields(out@) =~= prev.0.push((name@, entry@)));
                assert(records@.drop_last() =~= before_records);
                assert(record_views(records@) =~= prev.2.push(
                    RecordV { name: name@, outcome, display: seq![] },
                ));
            }
        }
        proof {
            assert(fv[i as int] == (name@, entry@));
            let next = setup_scan(format, fv.take(i + 1), m0);
            assert(fv.take(i + 1).len() > 0);
            assert(next.0 == jview_fields(out@));
            assert(next.1 == servers_view(config.servers@));
            assert(next.2 == record_views(records@));
            assert(next.2.drop_last() =~= prev.2);
            assert(imported == count_imported(next.2));
        }
        i = i + 1;
    }
    assert(fv.take(entries.len() as int) =~= fv);
    (out, records, imported)
}

/// The position of the first field named `key`.
fn find_field(fields: &Vec<(String, Json)>, key: &str) -> (r: Option<usize>)
    ensures
        match r {
            Some(i) => i < fields@.len() && fields@[i as int].0@ == key@ && forall|j: int|
                0 <= j < i ==> (#[trigger] fields@[j]).0@ != key@,
            None => forall|j: int| 0 <= j < fields@.len() ==> (#[trigger] fields@[j]).0@ != key@,
        },
{
    let k = str_chars(key);
    let mut i: usize = 0;
    while i < fields.len()
        invariant
            i <= fields.len(),
            k@ == key@,
            forall|j: int| 0 <= j < i ==> (#[trigger] fields@[j]).0@ != key@,
        decreases fields.len() - i,
    {
        if chars_eq(&str_chars(fields[i].0.as_str()), &k) {
            return Some(i);
        }
        i = i + 1;
    }
    None
}

fn servers_key_exec(format: Format) -> (k: &'static str)
    ensures
        k@ == servers_key(format),
{
    match format {
        Format::Mcp => "mcpServers",
        Format::VsCode => "servers",
        Format::ZedContext => "context_servers",
    }
}

fn not_found() -> (r: SetupReport)
    ensures
        !r.found,
        r.imported == 0,
        r.records@.len() == 0,
{
    SetupReport { found: false, imported: 0, records: Vec::new() }
}

/// Import the servers of a client configuration `json` in `format` into
/// `config`, rewriting each imported entry to run through `trimcp proxy`.
pub fn process_servers(json: &mut Json, config: &mut Config, format: Format) -> (r: SetupReport)
    ensures
        final(config).compression == old(config).compression,
        final(config).metrics == old(config).metrics,
        final(config).cache == old(config).cache,
        match vget(old(json)@, servers_key(format)) {
            Some(JsonV::Object(fs)) => {
                let (fs2, m2, rep) = setup_scan(format, fs, servers_view(old(config).servers@));
                &&& r.found
                &&& final(json)@ == set_object_field(old(json)@, servers_key(format), JsonV::Object(fs2))
                &&& servers_view(final(config).servers@) == m2
                &&& record_views(r.records@) == rep
                &&& r.imported == count_imported(rep)
            },
            _ => {
                &&& !r.found
                &&& r.imported == 0
                &&& r.records@.len() == 0
                &&& final(json)@ == old(json)@
                &&& servers_view(final(config).servers@) == servers_view(old(config).servers@)
            },
        },
{
    let key = servers_key_exec(format);
    let mut root = Json::Null;
    std::mem::swap(&mut root, json);
    let ghost root_v = root@;
    match root {
        Json::Object(fields) => {
            let mut fields = fields;
            match find_field(&fields, key) {
                Some(i) => {
                    proof {
                        lemma_jview_fields(fields@);
                        let fv = jview_fields(fields@);
                        assert forall|j: int| 0 <= j < i implies (#[trigger] fv[j]).0 != key@ by {
                            assert(fv[j].0 == fields@[j].0@);
                        }
                        lemma_set_field_found(fv, key@, JsonV::Null, i as int);
                    }
                    let ghost old_fields = fields@;
                    let (k, v) = fields.remove(i);
                    match v {
                        Json::Object(entries) => {
                            let (new_entries, records, imported) = scan_entries(format, &entries, config);
                            let ghost new_v = JsonV::Object(jview_fields(new_entries@));
                            fields.insert(i, (k, Json::Object(new_entries)));
                            proof {
                                lemma_jview_fields(fields@);
                                lemma_jview_fields(old_fields);
                                let fv = jview_fields(old_fields);
                                lemma_set_field_found(fv, key@, new_v, i as int);
                                assert(jview_fields(fields@) =~= fv.update(i as int, (key@, new_v)));
                            }
                            *json = Json::Object(fields);
                            SetupReport { found: true, imported, records }
                        },
                        other => {
                            fields.insert(i, (k, other));
                            proof {
                                lemma_jview_fields(fields@);
                                lemma_jview_fields(old_fields);
                                assert(fields@ =~= old_fields);
                            }
                            *json = Json::Object(fields);
                            not_found()
                        },
                    }
                },
                None => {
                    proof {
                        lemma_jview_fields(fields@);
                        let fv = jview_fields(fields@);
                        assert forall|j: int| 0 <= j < fv.len() implies (#[trigger] fv[j]).0 != key@ by {
                            assert(fv[j].0 == fields@[j].0@);
                        }
                        lemma_set_field_missing(fv, key@, JsonV::Null);
                    }
                    *json = Json::Object(fields);
                    not_found()
                },
            }
        },
        other => {
            *json = other;
            not_found()
        },
    }
}

/// Handle `{ "mcpServers": { "<name>": { "command", "args", "env" } } }`.
pub fn process_mcp_servers(json: &mut Json, config: &mut Config) -> (r: SetupReport)
    ensures
        match vget(old(json)@, "mcpServers"@) {
            Some(JsonV::Object(fs)) => {
                let (fs2, m2, rep) = setup_scan(Format::Mcp, fs, servers_view(old(config).servers@));
                &&& r.found
                &&& final(json)@ == set_object_field(old(json)@, "mcpServers"@, JsonV::Object(fs2))
                &&& servers_view(final(config).servers@) == m2
                &&& record_views(r.records@) == rep
                &&& r.imported == count_imported(rep)
            },
            _ => !r.found && r.imported == 0 && final(json)@ == old(json)@ && servers_view(
                final(config).servers@,
            ) == servers_view(old(config).servers@),
        },
{
    process_servers(json, config, Format::Mcp)
}

/// Handle `{ "servers": { "<name>": { "type", "command", "args" } } }` (VS Code
/// 1.99+); SSE servers are skipped.
pub fn process_vscode_servers(json: &mut Json, config: &mut Config) -> (r: SetupReport)
    ensures
        match vget(old(json)@, "servers"@) {
            Some(JsonV::Object(fs)) => {
                let (fs2, m2, rep) = setup_scan(Format::VsCode, fs, servers_view(old(config).servers@));
                &&& r.found
                &&& final(json)@ == set_object_field(old(json)@, "servers"@, JsonV::Object(fs2))
                &&& servers_view(final(config).servers@) == m2
                &&& record_views(r.records@) == rep
                &&& r.imported == count_imported(rep)
            },
            _ => !r.found && r.imported == 0 && final(json)@ == old(json)@ && servers_view(
                final(config).servers@,
            ) == servers_view(old(config).servers@),
        },
{
    process_servers(json, config, Format::VsCode)
}

/// Handle `{ "context_servers": { "<name>": { "command": { "path", "args" } } } }`
/// (Zed).
pub fn process_zed_servers(json: &mut Json, config: &mut Config) -> (r: SetupReport)
    ensures
        match vget(old(json)@, "context_servers"@) {
            Some(JsonV::Object(fs)) => {
                let (fs2, m2, rep) = setup_scan(Format::ZedContext, fs, servers_view(old(config).servers@));
                &&& r.found
                &&& final(json)@ == set_object_field(old(json)@, "context_servers"@, JsonV::Object(fs2))
                &&& servers_view(final(config).servers@) == m2
                &&& record_views(r.records@) == rep
                &&& r.imported == count_imported(rep)
            },
            _ => !r.found && r.imported == 0 && final(json)@ == old(json)@ && servers_view(
                final(config).servers@,
            ) == servers_view(old(config).servers@),
        },
{
    process_servers(json, config, Format::ZedContext)
}


// ── Running the import again ────────────────────────────────────────────────

/// The entry that replaces an imported one is itself already proxied.
proof fn lemma_replacement_is_proxied(format: Format, name: Seq<char>)
    ensures
        outcome_of(format, replacement(format, name)) == ImportOutcome::AlreadyProxied,
{
    let r = replacement(format, name);
    match format {
        Format::Mcp => {
            assert(vget_str(r, "command"@) == Some("trimcp"@));
        },
        Format::VsCode => {
            reveal_strlit("type");
            reveal_strlit("command");
            reveal_strlit("stdio");
            reveal_strlit("sse");
            assert("type"@.len() == 4 && "command"@.len() == 7);
            assert("stdio"@.len() == 5 && "sse"@.len() == 3);
            let fs = seq![("type"@, jstr("stdio"@)), ("command"@, jstr("trimcp"@)), ("args"@, proxy_args(name))];
            assert(r == JsonV::Object(fs));
            assert(fs.drop_first()[0].0 == "command"@);
            assert(vfield(fs.drop_first(), "command"@) == Some(jstr("trimcp"@)));
            assert(vget_str(r, "command"@) == Some("trimcp"@));
            assert(vget_str(r, "type"@) == Some("stdio"@));
        },
        Format::ZedContext => {
            let cmd = JsonV::Object(seq![("path"@, jstr("trimcp"@)), ("args"@, proxy_args(name))]);
            assert(vget(r, "command"@) == Some(cmd));
            assert(vget_str(cmd, "path"@) == Some("trimcp"@));
        },
    }
}

/// Importing again what an import produced imports nothing and changes
/// nothing: every imported entry was rewritten to run through trimcp, and
/// every other entry is skipped again for the same reason.
pub proof fn law_setup_idempotent(
    format: Format,
    fs: Seq<(Seq<char>, JsonV)>,
    servers: Map<Seq<char>, ServerConfigV>,
)
    ensures
        ({
            let (fs2, m2, rep) = setup_scan(format, fs, servers);
            let (fs3, m3, rep3) = setup_scan(format, fs2, m2);
            &&& fs3 == fs2
            &&& m3 == m2
            &&& count_imported(rep3) == 0
            &&& rep3.len() == rep.len()
            &&& forall|i: int| 0 <= i < rep3.len() ==> (#[trigger] rep3[i]).outcome != ImportOutcome::Imported
        }),
    decreases fs.len(),
{
    if fs.len() > 0 {
        let (p2, pm, prep) = setup_scan(format, fs.drop_last(), servers);
        law_setup_idempotent(format, fs.drop_last(), servers);
        let (fs2, m2, rep) = setup_scan(format, fs, servers);
        let name = fs.last().0;
        let entry = fs.last().1;
        let o = outcome_of(format, entry);
        if o == ImportOutcome::Imported {
            lemma_replacement_is_proxied(format, name);
        }
        lemma_scan_ignores_servers(format, p2, pm, m2);
        assert(fs2.drop_last() =~= p2);
        let (q3, qm, qrep) = setup_scan(format, p2, m2);
        let (fs3, m3, rep3) = setup_scan(format, fs2, m2);
        assert(rep3.drop_last() =~= qrep);
        assert forall|i: int| 0 <= i < rep3.len() implies (#[trigger] rep3[i]).outcome != ImportOutcome::Imported by {
            if i < rep3.len() - 1 {
                assert(rep3[i] == qrep[i]);
            }
        }
    }
}

/// Scanning entries none of which is imported leaves the servers as they
/// are, whatever they are.
proof fn lemma_scan_ignores_servers(
    format: Format,
    fs: Seq<(Seq<char>, JsonV)>,
    a: Map<Seq<char>, ServerConfigV>,
    b: Map<Seq<char>, ServerConfigV>,
)
    requires
        count_imported(setup_scan(format, fs, a).2) == 0,
        forall|i: int| 0 <= i < setup_scan(format, fs, a).2.len() ==> (#[trigger] setup_scan(format, fs, a).2[i]).outcome
            != ImportOutcome::Imported,
    ensures
        setup_scan(format, fs, b).0 == setup_scan(format, fs, a).0,
        setup_scan(format, fs, b).1 == b,
        setup_scan(format, fs, b).2 == setup_scan(format, fs, a).2,
    decreases fs.len(),
{
    if fs.len() > 0 {
        let ra = setup_scan(format, fs, a).2;
        let pa = setup_scan(format, fs.drop_last(), a).2;
        assert(ra.drop_last() =~= pa) by {
            let o = outcome_of(format, fs.last().1);
            assert(ra[ra.len() - 1].outcome == o);
        }
        assert forall|i: int| 0 <= i < pa.len() implies (#[trigger] pa[i]).outcome != ImportOutcome::Imported by {
            assert(pa[i] == ra[i]);
        }
        lemma_count_zero(pa);
        lemma_scan_ignores_servers(format, fs.drop_last(), a, b);
    }
}

proof fn lemma_count_zero(rep: Seq<RecordV>)
    requires
        forall|i: int| 0 <= i < rep.len() ==> (#[trigger] rep[i]).outcome != ImportOutcome::Imported,
    ensures
        count_imported(rep) == 0,
    decreases rep.len(),
{
    if rep.len() > 0 {
        assert forall|i: int| 0 <= i < rep.drop_last().len() implies (#[trigger] rep.drop_last()[i]).outcome
            != ImportOutcome::Imported by {
            assert(rep.drop_last()[i] == rep[i]);
        }
        lemma_count_zero(rep.drop_last());
        assert(rep.last() == rep[rep.len() - 1]);
    }
}

} // verus!
