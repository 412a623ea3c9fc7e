use std::path::PathBuf;
use trimcp::clients::{
    all_client_defs, client_locations, detect_all, parse_client_json, parse_mcp_servers,
    parse_vscode_servers, parse_zed_servers, ClientDef, Format, PathBase, Platform, ServerStatus,
};
use trimcp::json::Json;

fn path_of(d: &ClientDef) -> PathBuf {
    d.config_path.iter().collect()
}

fn s(x: &str) -> Json {
    Json::Str(x.to_string())
}

fn obj(pairs: Vec<(&str, Json)>) -> Json {
    Json::Object(pairs.into_iter().map(|(k, v)| (k.to_string(), v)).collect())
}

fn arr(items: Vec<Json>) -> Json {
    Json::Array(items)
}

#[test]
fn test_parse_mcp_servers_proxied() {
    let json = obj(vec![(
        "mcpServers",
        obj(vec![("my-server", obj(vec![("command", s("trimcp")), ("args", arr(vec![s("proxy"), s("my-server")]))]))]),
    )]);
    let entries = parse_mcp_servers(&json);
    assert_eq!(entries.len(), 1);
    assert_eq!(entries[0].status, ServerStatus::Proxied);
}

#[test]
fn test_parse_mcp_servers_direct() {
    let json = obj(vec![(
        "mcpServers",
        obj(vec![("my-server", obj(vec![("command", s("npx")), ("args", arr(vec![s("-y"), s("some-server")]))]))]),
    )]);
    let entries = parse_mcp_servers(&json);
    assert_eq!(entries.len(), 1);
    assert_eq!(entries[0].status, ServerStatus::Direct);
}

#[test]
fn test_parse_mcp_servers_disabled() {
    let json = obj(vec![(
        "mcpServers",
        obj(vec![("my-server", obj(vec![("command", s("npx")), ("disabled", Json::Bool(true))]))]),
    )]);
    let entries = parse_mcp_servers(&json);
    assert_eq!(entries.len(), 1);
    assert_eq!(entries[0].status, ServerStatus::Disabled);
}

#[test]
fn test_parse_mcp_servers_http() {
    let json = obj(vec![(
        "mcpServers",
        obj(vec![("remote", obj(vec![("serverUrl", s("https://example.com/mcp"))]))]),
    )]);
    let entries = parse_mcp_servers(&json);
    assert_eq!(entries.len(), 1);
    assert_eq!(entries[0].status, ServerStatus::Http);
}

#[test]
fn test_parse_vscode_servers_skips_sse() {
    let json = obj(vec![(
        "servers",
        obj(vec![
            ("sse-server", obj(vec![("type", s("sse")), ("url", s("https://example.com"))])),
            ("stdio-server", obj(vec![("type", s("stdio")), ("command", s("npx"))])),
        ]),
    )]);
    let entries = parse_vscode_servers(&json);
    assert_eq!(entries.len(), 1);
    assert_eq!(entries[0].name, "stdio-server");
}

#[test]
fn test_parse_zed_servers() {
    let json = obj(vec![(
        "context_servers",
        obj(vec![(
            "my-zed-server",
            obj(vec![("command", obj(vec![("path", s("npx")), ("args", arr(vec![s("-y"), s("server")]))]))]),
        )]),
    )]);
    let entries = parse_zed_servers(&json);
    assert_eq!(entries.len(), 1);
    assert_eq!(entries[0].command, Some("npx".to_string()));
    assert_eq!(entries[0].args, vec!["-y", "server"]);
    assert_eq!(entries[0].status, ServerStatus::Direct);
}

#[test]
fn test_parse_zed_servers_proxied() {
    let json = obj(vec![(
        "context_servers",
        obj(vec![(
            "my-server",
            obj(vec![("command", obj(vec![("path", s("trimcp")), ("args", arr(vec![s("proxy"), s("my-server")]))]))]),
        )]),
    )]);
    let entries = parse_zed_servers(&json);
    assert_eq!(entries.len(), 1);
    assert_eq!(entries[0].status, ServerStatus::Proxied);
}

#[test]
fn test_parse_mcp_servers_empty() {
    let json = obj(vec![]);
    let entries = parse_mcp_servers(&json);
    assert!(entries.is_empty());
}

#[test]
fn client_defs_are_never_empty() {
    let defs = all_client_defs("/home/u", "/home/u", Platform::Linux);
    assert!(!defs.is_empty());
    assert!(defs.iter().any(|d| d.name == "Cursor"));
    assert!(defs.iter().any(|d| d.name == "Windsurf"));
}

#[test]
fn client_paths_on_linux() {
    let defs = all_client_defs("/home/u", "/unused", Platform::Linux);
    assert_eq!(defs.len(), 8);
    assert_eq!(path_of(&defs[0]), PathBuf::from("/home/u/.cursor/mcp.json"));
    assert_eq!(defs[4].name, "VS Code");
    assert_eq!(path_of(&defs[4]), PathBuf::from("/home/u/.config/Code/User/mcp.json"));
    assert_eq!(
        path_of(&defs[6]),
        PathBuf::from("/home/u/.config/Code/User/globalStorage/rooveterinaryinc.roo-cline/settings/cline_mcp_settings.json")
    );
}

#[test]
fn client_paths_on_macos_and_windows() {
    let mac = all_client_defs("/Users/u", "/unused", Platform::MacOs);
    assert_eq!(
        path_of(&mac[5]),
        PathBuf::from("/Users/u/Library/Application Support/Code - Insiders/User/mcp.json")
    );
    assert!(matches!(mac[5].format, Format::VsCode));
    let win = all_client_defs("/h", "/appdata", Platform::Windows);
    assert_eq!(path_of(&win[4]), PathBuf::from("/appdata/Code/User/mcp.json"));
}

#[test]
fn other_platforms_know_only_home_clients() {
    let defs = all_client_defs("/h", "/a", Platform::Other);
    let names: Vec<&str> = defs.iter().map(|d| d.name).collect();
    assert_eq!(names, vec!["Cursor", "Windsurf", "Zed", "Continue.dev"]);
    assert!(matches!(defs[2].format, Format::ZedContext));
    assert_eq!(defs[3].restart_hint, "Restart VS Code / JetBrains to apply changes.");
}

#[test]
fn client_locations_list_components() {
    let locs = client_locations(Platform::Linux);
    assert_eq!(locs[1].segments, vec![".codeium", "windsurf", "mcp_config.json"]);
    assert_eq!(locs[1].base, PathBase::Home);
    assert_eq!(locs[7].name, "Roo Code (Insiders)");
    assert_eq!(locs[7].base, PathBase::AppSettings);
}

#[test]
fn parse_mcp_entry_keeps_command_args_and_string_env() {
    let json = obj(vec![(
        "mcpServers",
        obj(vec![(
            "fs",
            obj(vec![
                ("command", s("npx")),
                ("args", arr(vec![s("-y"), Json::Bool(true), s("pkg")])),
                ("env", obj(vec![("TOKEN", s("abc")), ("N", Json::Null)])),
            ]),
        )]),
    )]);
    let entries = parse_client_json(&json, Format::Mcp);
    assert_eq!(entries.len(), 1);
    assert_eq!(entries[0].name, "fs");
    assert_eq!(entries[0].args, vec!["-y".to_string(), "pkg".to_string()]);
    assert_eq!(entries[0].env.len(), 1);
    assert_eq!(entries[0].env.get("TOKEN").map(|v| v.as_str()), Some("abc"));
}

#[test]
fn parse_without_server_list_gives_nothing() {
    let json = obj(vec![("other", obj(vec![]))]);
    assert!(parse_client_json(&json, Format::Mcp).is_empty());
    assert!(parse_client_json(&json, Format::VsCode).is_empty());
    assert!(parse_client_json(&Json::Null, Format::ZedContext).is_empty());
}

#[test]
fn detect_all_pairs_each_client_with_its_servers() {
    let defs = all_client_defs("/h", "/a", Platform::Other);
    let mut found: Vec<(ClientDef, Option<Json>)> = Vec::new();
    for (i, d) in defs.into_iter().enumerate() {
        let cfg = if i == 0 {
            Some(obj(vec![("mcpServers", obj(vec![("x", obj(vec![("command", s("trimcp"))]))]))]))
        } else {
            None
        };
        found.push((d, cfg));
    }
    let detected = detect_all(found);
    assert_eq!(detected.len(), 4);
    assert_eq!(detected[0].def.name, "Cursor");
    assert_eq!(detected[0].servers.len(), 1);
    assert_eq!(detected[0].servers[0].status, ServerStatus::Proxied);
    assert!(detected[1].servers.is_empty());
}

#[test]
fn client_paths_are_components() {
    let defs = all_client_defs("/h", "/a", Platform::Linux);
    assert_eq!(defs[1].config_path, vec!["/h", ".codeium", "windsurf", "mcp_config.json"]);
    assert_eq!(defs[5].config_path, vec!["/h", ".config", "Code - Insiders", "User", "mcp.json"]);
    let win = all_client_defs("/h", "/a", Platform::Windows);
    assert_eq!(win[4].config_path, vec!["/a", "Code", "User", "mcp.json"]);
}
