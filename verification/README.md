# trimcp

An MCP proxy that sits between an LLM client and its MCP servers, strips the
noise out of tool results (escape codes, pretty-printed JSON, repeated log
lines, trailing whitespace, comment lines in code blocks), caches identical
tool calls and reports the tokens it saved.

## Layout

- `src/` — the verified library. Each module states its behaviour in
  `requires`/`ensures` contracts over mathematical models and proves it:
  - `compress` — the compression strategies and the pipeline;
  - `json`, `protocol` — the JSON value model, its compact text and the
    JSON-RPC messages;
  - `proxy`, `cache`, `knowledge`, `code_context` — what the proxy does with
    a `tools/call`: cache and knowledge-store hits, compression, the code
    context block;
  - `metrics`, `stats_store`, `checkpoint`, `cmd_stats` — session counters,
    persistent statistics and their report;
  - `config`, `clients`, `setup`, `status` — configuration, the MCP clients
    and their server lists, importing servers and the status table;
  - `text`, `strmap` — text and map helpers.
  Laws that relate several operations are public proof functions named
  `law_*`.
- `app/` — the `trimcp` command: argument parsing, files, the upstream
  process, the message loop and printing.
- `tests/` — tests of the library.
