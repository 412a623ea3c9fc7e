use trimcp::clients::{all_client_defs, detect_all, ClientDef, Platform, ServerStatus};
use trimcp::json::Json;
use trimcp::status::status_table;

fn s(x: &str) -> Json {
    Json::Str(x.to_string())
}

fn obj(pairs: Vec<(&str, Json)>) -> Json {
    Json::Object(pairs.into_iter().map(|(k, v)| (k.to_string(), v)).collect())
}

fn defs() -> Vec<ClientDef> {
    all_client_defs("/h", "/a", Platform::Other)
}

#[test]
fn rows_are_grouped_and_ordered_by_best_status_then_name() {
    let cursor = obj(vec![(
        "mcpServers",
        obj(vec![
            ("zeta", obj(vec![("command", s("npx"))])),
            ("alpha", obj(vec![("command", s("npx")), ("disabled", Json::Bool(true))])),
            ("web", obj(vec![("url", s("https://e.com"))])),
        ]),
    )]);
    let windsurf = obj(vec![(
        "mcpServers",
        obj(vec![
            ("alpha", obj(vec![("command", s("trimcp"))])),
            ("beta", obj(vec![("command", s("node"))])),
        ]),
    )]);
    let mut found: Vec<(ClientDef, Option<Json>)> = Vec::new();
    for (i, d) in defs().into_iter().enumerate() {
        let cfg = match i {
            0 => Some(cursor.clone()),
            1 => Some(windsurf.clone()),
            _ => None,
        };
        found.push((d, cfg));
    }
    let rows = status_table(&detect_all(found));
    let names: Vec<&str> = rows.iter().map(|r| r.name.as_str()).collect();
    assert_eq!(names, vec!["alpha", "beta", "zeta", "web"]);
    // alpha ranks as proxied (its best entry) but shows its first entry's status.
    assert_eq!(rows[0].status, ServerStatus::Disabled);
    assert_eq!(rows[0].clients, vec!["Cursor", "Windsurf"]);
    assert_eq!(rows[1].status, ServerStatus::Direct);
    assert_eq!(rows[1].clients, vec!["Windsurf"]);
    assert_eq!(rows[3].status, ServerStatus::Http);
}

#[test]
fn no_servers_no_rows() {
    let found: Vec<(ClientDef, Option<Json>)> = defs().into_iter().map(|d| (d, None)).collect();
    assert!(status_table(&detect_all(found)).is_empty());
}

#[test]
fn names_sort_by_code_point() {
    let cfg = obj(vec![(
        "mcpServers",
        obj(vec![
            ("b", obj(vec![("command", s("x"))])),
            ("B", obj(vec![("command", s("x"))])),
            ("ab", obj(vec![("command", s("x"))])),
            ("a", obj(vec![("command", s("x"))])),
        ]),
    )]);
    let found: Vec<(ClientDef, Option<Json>)> = defs()
        .into_iter()
        .enumerate()
        .map(|(i, d)| (d, if i == 3 { Some(cfg.clone()) } else { None }))
        .collect();
    let rows = status_table(&detect_all(found));
    let names: Vec<&str> = rows.iter().map(|r| r.name.as_str()).collect();
    assert_eq!(names, vec!["B", "a", "ab", "b"]);
    assert_eq!(rows[0].clients, vec!["Continue.dev"]);
}
