# gdl

Git status and file diffs as deterministic terminal text, the same bytes from the
command line and from an MCP server.

The library under `src/` is verified with Verus:

- `model`: sections, change kinds, status entries, hunks, file diffs and errors.
- `lines`, `hunks`: line splitting, binary detection, added/removed line counts, and
  the hunks of a file diff (computed by gix-diff's histogram diff).
- `paths`, `order`: repository-relative paths and the status order.
- `status`: status entries from the items of a status walk.
- `style`, `render_status`, `render_diff`, `render`: plain and ANSI renderings, with
  the proof that removing the escapes from colored output gives the plain output.
- `cli`, `mcp`: argument and tool-parameter resolution into render options, and the
  decisions of a command-line run.

`app/` holds the program: argument parsing, reading the repository with gix, JSON
output with serde, and the MCP server (`gdl mcp-server`).
