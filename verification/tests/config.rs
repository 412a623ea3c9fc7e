use trimcp::config::{Config, ServerConfig};
use trimcp::error::TrimcpError;
use trimcp::strmap::StrMap;

#[test]
fn test_default_config_has_sensible_values() {
    let cfg = Config::default();
    assert!(cfg.compression.enabled);
    assert!(cfg.compression.strip_ansi);
    assert!(cfg.compression.dedup);
    assert!(!cfg.compression.strip_comments);
    assert!(cfg.metrics.enabled);
    assert!(!cfg.metrics.realtime);
    assert!(cfg.cache.enabled);
    assert_eq!(cfg.cache.ttl_secs, 300);
}

#[test]
fn test_get_server_found() {
    let mut cfg = Config::default();
    cfg.servers.insert(
        "myserver".to_string(),
        ServerConfig { command: "my-mcp".to_string(), args: vec![], env: StrMap::new() },
    );
    let s = cfg.get_server("myserver").unwrap();
    assert_eq!(s.command, "my-mcp");
}

#[test]
fn test_get_server_not_found_returns_error() {
    let cfg = Config::default();
    let result = cfg.get_server("nonexistent");
    assert!(result.is_err());
    assert!(result.unwrap_err().message().contains("nonexistent"));
}

#[test]
fn default_config_has_no_servers_and_all_strategies_on_but_comments() {
    let cfg = Config::default();
    assert!(cfg.servers.is_empty());
    assert!(cfg.compression.compact_json);
    assert!(cfg.compression.minify);
}

#[test]
fn get_server_error_is_a_config_error_with_its_message() {
    let cfg = Config::default();
    match cfg.get_server("ghost") {
        Err(e) => {
            assert!(matches!(e, TrimcpError::Config(_)));
            assert_eq!(
                e.message(),
                "Config error: server 'ghost' not found — run `trimcp list` to see available servers"
            );
        }
        Ok(_) => panic!("expected an error"),
    }
}

#[test]
fn error_messages_carry_their_prefix() {
    assert_eq!(TrimcpError::Proxy("x".to_string()).message(), "Proxy error: x");
    assert_eq!(TrimcpError::Upstream("y".to_string()).message(), "Upstream process error: y");
    let io = std::io::Error::new(std::io::ErrorKind::Other, "disk gone");
    assert_eq!(TrimcpError::Io(io).message(), "I/O error: disk gone");
}

#[test]
fn server_from_command_line() {
    let s = ServerConfig::from_command_line(&vec!["npx".to_string(), "-y".to_string(), "pkg".to_string()]).unwrap();
    assert_eq!(s.command, "npx");
    assert_eq!(s.args, vec!["-y", "pkg"]);
    assert!(s.env.is_empty());
    assert!(ServerConfig::from_command_line(&vec![]).is_none());
    let bare = ServerConfig::from_command_line(&vec!["srv".to_string()]).unwrap();
    assert!(bare.args.is_empty());
}
