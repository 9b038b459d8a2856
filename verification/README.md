# mcp_guard

The verified core of two small services:

* a filesystem tool server that confines every file operation to a set of
  sandbox roots (`src/fs/`), and
* a URL reputation filter that decides whether a URL may be fetched
  (`src/reputation/`), with its full screening pipeline and its simpler
  pre-fetch hook (`src/reputation/prefetch.rs`: plain domain suffixes and URL
  substrings).

`src/` is checked by Verus. Path handling follows `std::path` semantics
(components, parents and ancestors sliced from the text as std slices them,
component-wise prefixes); the sandbox decides
containment on canonical paths; edits, diffs, listings and searches are
computed from plain values. The URL filter parses with the `url` crate, matches
patterns with `regex`, and decides with verified rules (whitelist, allow
patterns, scheme policy, blocked domains, blocked patterns, IP-host detection,
top-level-domain and label checks). Calls into outside crates sit behind small
trusted wrappers whose contracts are stated in their doc comments.

`app/` holds the I/O around the library: the MCP server (tokio, axum, rmcp),
canonicalisation and file access, the floating-point entropy test, and the
Python bindings of the URL filter.

`tests/` exercises the library on concrete values.
