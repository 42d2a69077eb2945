# mdtool

A Markdown operations engine for AI agents, verified with Verus. Markdown
text is parsed (with comrak) into a semantic block tree; the library reads,
searches, edits, validates, normalizes and formats ASCII art on that tree,
and every operation states its result in a `requires`/`ensures` contract
over mathematical models of the text and the tree. The syntax tree that
comrak parses from a text is named (`gfm_tree`) rather than described:
contracts say which tree a text builds into, and when building succeeds,
in terms of that name.

## Layout

- `src/` — the verified library.
  - `text.rs`, `primitives.rs`, `error.rs` — characters and lines, ids and
    line ranges, errors and diagnostics.
  - `domain/` — the block tree: blocks, nodes, the document, selectors,
    policy, responses.
  - `infrastructure/` — comrak behind trusted wrappers (`markdown.rs`), the
    extraction of blocks from the syntax tree (`parser.rs`), line-ending
    normalization, and the filesystem policy checks.
  - `builder/` — the heading tree over the flat blocks, with its laws
    (well-founded, distinct ids, a section's parent is its nearest
    shallower heading, a list item's parent its list).
  - `ops/` — resolution of selectors, traversal, reads, search, diffs,
    generic and semantic edits, batches of edits. Walks over the tree ask
    only that its children relation has no cycle (`acyclic`).
  - `processing/` — normalization (with its idempotence law) and
    validation.
  - `ascii/` — detection and formatting of ASCII art fences (with the
    idempotence of formatting).
  - `services/` — the operations on the text of a file, under a policy;
    reading and writing the file is the caller's part.
  - `mcp/` — the request types of the MCP tools and the server state.
- `tests/` — the tests, run against the compiled library.
- `app/` — the `mdtool` program: command line, file I/O, JSON, and the MCP
  server on stdio (when started as `mdtool-mcp`).

Laws of the library are public proof functions named `law_*`.
