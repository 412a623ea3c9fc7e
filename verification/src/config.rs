//! Proxy configuration (the model of `~/.config/trimcp/config.toml`).
use vstd::prelude::*;
use crate::error::TrimcpError;
use crate::strmap::StrMap;
use crate::text::{append_chars, str_chars, string_from_chars};

verus! {

/// Full proxy configuration.
#[derive(Clone, Debug)]
pub struct Config {
    pub servers: StrMap<ServerConfig>,
    pub compression: CompressionConfig,
    pub metrics: MetricsConfig,
    pub cache: CacheConfig,
}

/// How to start one upstream MCP server.
#[derive(Clone, Debug)]
pub struct ServerConfig {
    pub command: String,
    pub args: Vec<String>,
    pub env: StrMap<String>,
}

#[derive(Clone, Copy, PartialEq, Eq, Structural, Debug)]
pub struct CompressionConfig {
    pub enabled: bool,
    pub strip_ansi: bool,
    pub compact_json: bool,
    pub strip_comments: bool,
    pub dedup: bool,
    pub minify: bool,
}

#[derive(Clone, Copy, PartialEq, Eq, Structural, Debug)]
pub struct MetricsConfig {
    pub enabled: bool,
    pub realtime: bool,
}

#[derive(Clone, Copy, PartialEq, Eq, Structural, Debug)]
pub struct CacheConfig {
    pub enabled: bool,
    pub ttl_secs: u64,
}

/// What a server configuration holds.
pub struct ServerConfigV {
    pub command: Seq<char>,
    pub args: Seq<Seq<char>>,
    pub env: Map<Seq<char>, Seq<char>>,
}

pub open spec fn server_config_view(c: ServerConfig) -> ServerConfigV {
    ServerConfigV {
        command: c.command@,
        args: c.args@.map_values(|a: String| a@),
        env: c.env@.map_values(|v: String| v@),
    }
}

/// The configured servers by name.
pub open spec fn servers_view(m: Map<Seq<char>, ServerConfig>) -> Map<Seq<char>, ServerConfigV> {
    m.map_values(|c: ServerConfig| server_config_view(c))
}

// ── Defaults ─────────────────────────────────────────────────────────────────

impl Default for CompressionConfig {
    fn default() -> (c: Self)
        ensures
            c == (CompressionConfig {
                enabled: true,
                strip_ansi: true,
                compact_json: true,
                strip_comments: false,
                dedup: true,
                minify: true,
            }),
    {
        CompressionConfig {
            enabled: true,
            strip_ansi: true,
            compact_json: true,
            strip_comments: false,
            dedup: true,
            minify: true,
        }
    }
}

impl Default for MetricsConfig {
    fn default() -> (c: Self)
        ensures
            c == (MetricsConfig { enabled: true, realtime: false }),
    {
        MetricsConfig { enabled: true, realtime: false }
    }
}

impl Default for CacheConfig {
    fn default() -> (c: Self)
        ensures
            c == (CacheConfig { enabled: true, ttl_secs: 300 }),
    {
        CacheConfig { enabled: true, ttl_secs: 300 }
    }
}

impl Default for ServerConfig {
    fn default() -> (c: Self)
        ensures
            c.command@ == Seq::<char>::empty(),
            c.args@ == Seq::<String>::empty(),
            c.env@ == Map::<Seq<char>, String>::empty(),
    {
        ServerConfig { command: String::new(), args: Vec::new(), env: StrMap::new() }
    }
}

impl Default for Config {
    fn default() -> (c: Self)
        ensures
            c.servers@ == Map::<Seq<char>, ServerConfig>::empty(),
            c.compression == (CompressionConfig {
                enabled: true,
                strip_ansi: true,
                compact_json: true,
                strip_comments: false,
                dedup: true,
                minify: true,
            }),
            c.metrics == (MetricsConfig { enabled: true, realtime: false }),
            c.cache == (CacheConfig { enabled: true, ttl_secs: 300 }),
    {
        Config {
            servers: StrMap::new(),
            compression: CompressionConfig::default(),
            metrics: MetricsConfig::default(),
            cache: CacheConfig::default(),
        }
    }
}

// ── Lookup ───────────────────────────────────────────────────────────────────

/// The message for a server name that the configuration does not hold.
pub open spec fn server_not_found(name: Seq<char>) -> Seq<char> {
    "server '"@ + name + "' not found — run `trimcp list` to see available servers"@
}

fn server_not_found_message(name: &str) -> (s: String)
    ensures
        s@ == server_not_found(name@),
{
    let mut cs = str_chars("server '");
    append_chars(&mut cs, &str_chars(name));
    append_chars(&mut cs, &str_chars("' not found — run `trimcp list` to see available servers"));
    string_from_chars(&cs)
}

impl ServerConfig {
    /// The server started by the command line `upstream`: its first word is
    /// the command, the rest its arguments; `None` when it is empty.
    pub fn from_command_line(upstream: &Vec<String>) -> (r: Option<ServerConfig>)
        ensures
            match r {
                Some(c) => upstream@.len() > 0 && c.command@ == upstream@[0]@ && c.args@ == upstream@.drop_first()
                    && c.env@ == Map::<Seq<char>, String>::empty(),
                None => upstream@.len() == 0,
            },
    {
        if upstream.len() == 0 {
            return None;
        }
        let command = upstream[0].clone();
        let mut args: Vec<String> = Vec::new();
        let mut i: usize = 1;
        while i < upstream.len()
            invariant
                1 <= i <= upstream.len(),
                args@ == upstream@.subrange(1, i as int),
            decreases upstream.len() - i,
        {
            args.push(upstream[i].clone());
            i = i + 1;
            assert(args@ =~= upstream@.subrange(1, i as int));
        }
        assert(upstream@.subrange(1, upstream@.len() as int) =~= upstream@.drop_first());
        Some(ServerConfig { command, args, env: StrMap::new() })
    }
}

impl Config {
    /// Get a server by name or return a clear error.
    pub fn get_server(&self, name: &str) -> (r: Result<&ServerConfig, TrimcpError>)
        ensures
            match r {
                Ok(s) => self.servers@.contains_key(name@) && *s == self.servers@[name@],
                Err(e) => !self.servers@.contains_key(name@) && match e {
                    TrimcpError::Config(m) => m@ == server_not_found(name@),
                    _ => false,
                },
            },
    {
        match self.servers.get(name) {
            Some(s) => Ok(s),
            None => Err(TrimcpError::Config(server_not_found_message(name))),
        }
    }
}

} // verus!
