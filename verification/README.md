# prefrontal

A local, live dashboard over all your projects — *where was I, what's
rotting, didn't I already write this?* — with its logic verified in Verus.

## Layout

| Path | What |
|---|---|
| `src/` | The verified library: every decision, with its contract and laws |
| `src/protocol.rs` | Wire and domain types with their mathematical views |
| `src/config.rs` | Configuration, defaults, path joining and `~` expansion |
| `src/scan.rs` | Project scan: activity, health flags, git window, languages, README tagline |
| `src/sort.rs` | The stable newest-first sort and its laws |
| `src/docs.rs` | Notes: which files are docs, the path rules, README-first listing, honest write reports |
| `src/symbols.rs` | Declaration cards extracted from source lines |
| `src/search.rs` | What goes into the full-text index and what a hit shows |
| `src/watch.rs` | Watcher decisions: project of a path, quiet period, applying a rescan |
| `src/ui.rs` | How a client folds frames, filters, rows, stats |
| `src/render.rs` | Terminal tables, timeline, colony table, search hits |
| `src/colony.rs` | The sibling roster, ports, landers, binaries |
| `src/mcp.rs` | The MCP server's routing, defaults, scan cache and tool list |
| `src/cortex.rs` | Cortex cards, tags and reply matching |
| `src/client.rs` | URL encoding and routes of the SDK |
| `src/daemon.rs` | Route lookups, content types, HTML cleaning, WebSocket steps |
| `tests/` | Tests on concrete values, one per law and per formula |
| `app/` | The program around the library: CLI, MCP stdio, daemon, index, file system |

Run the CLI with `prefrontal status | health | timeline | find | colony | mcp |
recall | cortex-sync`, and the daemon with `prefrontal daemon`.
