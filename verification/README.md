# tomegane

Picks the frames of a screen recording that matter, for AI agents: frames
are sampled with `ffmpeg`, fingerprinted with a perceptual hash, and only
those where the screen changed enough are kept. It runs as a command line
tool, as an MCP server, and can install itself into MCP clients.

## Layout

- `src/` is the library, verified with Verus. It holds the decisions of the
  tool with their contracts and laws:
  - `extract/diff.rs`: Hamming distance of hashes, the key-frame selection
    (greedy pass, cap on the number of frames, streaming selector) and its
    laws.
  - `extract/ffmpeg.rs`: reading crop specifications and building the
    `ffmpeg` video filter.
  - `analysis.rs`: changed pixels between two frames and the box around
    them, grouping of elevated frame pairs into windows, window assessments.
  - `mcp.rs`: request routing, the reply chosen for each request, argument
    reading and error replies of the MCP server.
  - `tools.rs`: the tools the MCP server offers, with their parameters.
  - `setup.rs`: configuration paths, client detection reports, the setup
    steps, and the edits of the clients' configuration files: adding the
    tomegane entry to Cursor's JSON file and to Codex's TOML file, and
    reading whether it is already there. The setup helper knows two
    clients, Cursor and Codex.
  - `frame_files.rs`: which files of the extraction directory are frames,
    in the order of their names.
  - `json.rs`: JSON values, with key lookup and entry replacement.
  - `toml_doc.rs`: TOML documents of the `toml_edit` crate, read and edited
    through that crate.
  - `error.rs`, `text.rs`, `lib.rs`: error kinds and codes, text helpers,
    image formats, frame labels and Base64 text.
- `app/` is the program around the library: the command line, running
  `ffmpeg`, decoding images, the floating-point parts (the perceptual hash
  itself, scores, thresholds, the performance report), reading and writing the configuration files (and
  converting JSON between `serde_json` and the library's value type),
  and the MCP server loop.
- `tests/` runs the library on concrete values.
