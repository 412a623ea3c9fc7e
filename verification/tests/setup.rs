use trimcp::config::{Config, ServerConfig};
use trimcp::setup::command_line;
use trimcp::strmap::StrMap;
use trimcp::json::{to_json_string, Json};
use trimcp::setup::{process_mcp_servers, process_vscode_servers, process_zed_servers, ImportOutcome};

fn s(x: &str) -> Json {
    Json::Str(x.to_string())
}

fn obj(pairs: Vec<(&str, Json)>) -> Json {
    Json::Object(pairs.into_iter().map(|(k, v)| (k.to_string(), v)).collect())
}

fn arr(items: Vec<Json>) -> Json {
    Json::Array(items)
}

#[test]
fn mcp_servers_are_imported_and_rewritten() {
    let mut json = obj(vec![
        ("theme", s("dark")),
        (
            "mcpServers",
            obj(vec![
                (
                    "fs",
                    obj(vec![
                        ("command", s("npx")),
                        ("args", arr(vec![s("-y"), s("server-fs"), s("/tmp")])),
                        ("env", obj(vec![("DEBUG", s("1"))])),
                    ]),
                ),
                ("done", obj(vec![("command", s("trimcp")), ("args", arr(vec![s("proxy"), s("done")]))])),
                ("off", obj(vec![("command", s("x")), ("disabled", Json::Bool(true))])),
                ("web", obj(vec![("url", s("https://e.com"))])),
                ("bad", obj(vec![("args", arr(vec![]))])),
            ]),
        ),
    ]);
    let mut config = Config::default();
    let report = process_mcp_servers(&mut json, &mut config);
    assert!(report.found);
    assert_eq!(report.imported, 1);
    let outcomes: Vec<ImportOutcome> = report.records.iter().map(|r| r.outcome).collect();
    assert_eq!(
        outcomes,
        vec![
            ImportOutcome::Imported,
            ImportOutcome::AlreadyProxied,
            ImportOutcome::Disabled,
            ImportOutcome::Http,
            ImportOutcome::NoCommand,
        ]
    );
    assert_eq!(report.records[0].display, "npx -y server-fs /tmp");
    let fs = config.servers.get("fs").unwrap();
    assert_eq!(fs.command, "npx");
    assert_eq!(fs.args, vec!["-y", "server-fs", "/tmp"]);
    assert_eq!(fs.env.get("DEBUG").map(|v| v.as_str()), Some("1"));
    assert_eq!(config.servers.len(), 1);
    assert_eq!(
        to_json_string(&json),
        [
            r#"{"theme":"dark","mcpServers":{"fs":{"command":"trimcp","args":["proxy","fs"]},"#,
            r#""done":{"command":"trimcp","args":["proxy","done"]},"off":{"command":"x","disabled":true},"#,
            r#""web":{"url":"https://e.com"},"bad":{"args":[]}}}"#,
        ]
        .join("")
    );
}

#[test]
fn no_server_list_changes_nothing() {
    let mut json = obj(vec![("other", s("x"))]);
    let mut config = Config::default();
    let report = process_mcp_servers(&mut json, &mut config);
    assert!(!report.found);
    assert_eq!(report.imported, 0);
    assert!(report.records.is_empty());
    assert_eq!(to_json_string(&json), r#"{"other":"x"}"#);
    assert!(config.servers.is_empty());
}

#[test]
fn vscode_sse_servers_are_skipped() {
    let mut json = obj(vec![(
        "servers",
        obj(vec![
            ("remote", obj(vec![("type", s("sse")), ("url", s("https://e.com"))])),
            ("local", obj(vec![("type", s("stdio")), ("command", s("node")), ("args", arr(vec![s("a.js")]))])),
        ]),
    )]);
    let mut config = Config::default();
    let report = process_vscode_servers(&mut json, &mut config);
    assert_eq!(report.imported, 1);
    assert_eq!(report.records[0].outcome, ImportOutcome::Sse);
    assert_eq!(report.records[1].display, "node a.js");
    assert_eq!(
        to_json_string(&json),
        r#"{"servers":{"remote":{"type":"sse","url":"https://e.com"},"local":{"type":"stdio","command":"trimcp","args":["proxy","local"]}}}"#
    );
}

#[test]
fn zed_servers_are_imported_from_the_command_object() {
    let mut json = obj(vec![(
        "context_servers",
        obj(vec![
            ("ctx", obj(vec![("command", obj(vec![("path", s("uvx")), ("args", arr(vec![s("srv")]))])), ("env", obj(vec![("K", s("v"))]))])),
            ("nocmd", obj(vec![])),
            ("nopath", obj(vec![("command", obj(vec![("args", arr(vec![]))]))])),
            ("mine", obj(vec![("command", obj(vec![("path", s("trimcp"))]))])),
        ]),
    )]);
    let mut config = Config::default();
    let report = process_zed_servers(&mut json, &mut config);
    assert_eq!(report.imported, 1);
    let outcomes: Vec<ImportOutcome> = report.records.iter().map(|r| r.outcome).collect();
    assert_eq!(
        outcomes,
        vec![
            ImportOutcome::Imported,
            ImportOutcome::NoCommandField,
            ImportOutcome::NoCommandPath,
            ImportOutcome::AlreadyProxied,
        ]
    );
    let ctx = config.servers.get("ctx").unwrap();
    assert_eq!(ctx.command, "uvx");
    assert_eq!(ctx.args, vec!["srv"]);
    assert_eq!(ctx.env.get("K").map(|v| v.as_str()), Some("v"));
    assert!(to_json_string(&json).starts_with(
        r#"{"context_servers":{"ctx":{"command":{"path":"trimcp","args":["proxy","ctx"]}},"#
    ));
}

#[test]
fn import_replaces_an_existing_server_of_the_same_name() {
    let mut json = obj(vec![("mcpServers", obj(vec![("fs", obj(vec![("command", s("new-cmd"))]))]))]);
    let mut config = Config::default();
    let mut first = obj(vec![("mcpServers", obj(vec![("fs", obj(vec![("command", s("old-cmd"))]))]))]);
    process_mcp_servers(&mut first, &mut config);
    let report = process_mcp_servers(&mut json, &mut config);
    assert_eq!(report.records[0].display, "new-cmd");
    assert_eq!(config.servers.len(), 1);
    assert_eq!(config.servers.get("fs").unwrap().command, "new-cmd");
}

#[test]
fn command_line_joins_command_and_arguments() {
    let c = ServerConfig { command: "npx".to_string(), args: vec!["-y".to_string(), "pkg".to_string()], env: StrMap::new() };
    assert_eq!(command_line(&c), "npx -y pkg");
    let bare = ServerConfig { command: "srv".to_string(), args: vec![], env: StrMap::new() };
    assert_eq!(command_line(&bare), "srv");
}

#[test]
fn importing_twice_imports_nothing_the_second_time() {
    for (key, entry) in [
        ("mcpServers", obj(vec![("command", s("npx")), ("args", arr(vec![s("-y"), s("x")]))])),
        ("servers", obj(vec![("type", s("stdio")), ("command", s("node"))])),
        ("context_servers", obj(vec![("command", obj(vec![("path", s("uvx"))]))])),
    ] {
        let mut json = obj(vec![(key, obj(vec![("a", entry)]))]);
        let mut config = Config::default();
        let run = |json: &mut Json, config: &mut Config| match key {
            "mcpServers" => process_mcp_servers(json, config),
            "servers" => process_vscode_servers(json, config),
            _ => process_zed_servers(json, config),
        };
        let first = run(&mut json, &mut config);
        assert_eq!(first.imported, 1);
        let after_first = to_json_string(&json);
        let second = run(&mut json, &mut config);
        assert_eq!(second.imported, 0);
        assert_eq!(second.records[0].outcome, ImportOutcome::AlreadyProxied);
        assert_eq!(to_json_string(&json), after_first);
        assert_eq!(config.servers.len(), 1);
    }
}
