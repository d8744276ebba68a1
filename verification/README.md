# mcp_project_trust

Decides whether the MCP servers that a project defines may run.

- `src/` is the verified library: the review of a configuration and its fingerprint (`config`,
  `review`, `fingerprint`, `json`), the trust store (`store`, `paths`), what is shown and asked
  (`display`, `command`), the maps and the order of texts that they rest on (`maps`, `text`), and
  what holds of all of it together (`laws`).
- `app/` reads and writes the files, talks to the terminal, and leaves every decision to the
  library.
- `tests/` runs the library on concrete values.
