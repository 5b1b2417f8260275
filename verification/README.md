# ast_line_core

Graph-powered code intelligence: a repository is scanned, its file and
folder structure and the symbols of its sources become a knowledge graph,
imports are linked across files, connected parts of the graph become
communities, and the result can be searched (ranked term search, symbol
search, grep) from a command line, an HTTP API or an MCP server.

## Layout

- `src/` — the library, written in Verus and verified:
  - `graph` — the knowledge graph (unique ids as a type invariant) and its laws;
  - `types`, `text`, `time`, `paths` — shared data, text helpers, timestamps, paths;
  - `config`, `scan`, `structure`, `parse`, `cross_file`, `communities`,
    `pipeline` — the ingestion phases and what they report;
  - `search`, `grep` — the term index and line search;
  - `storage` — index locations, the registry of repositories, the git root;
  - `cli`, `server`, `mcp` — the decisions and texts of the three front ends.
- `tests/` — tests of the library on concrete values.
- `app/` — the program around the library: argument parsing, disk and
  network I/O, JSON, floating-point ranking, the HTTP and MCP servers. Started
  as `gitnexus` it offers the smaller `analyze`/`status` front end.
