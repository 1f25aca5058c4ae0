# filetoolkit

The back end of a desktop file toolkit: image compression, PDF merging and
splitting, batch renaming, duplicate finding, checksums, disk usage, video and
audio conversion through ffmpeg, archives, Office conversion, and pipelines
that chain these operations.

- `src/` is the library, verified with Verus. Every decision of the toolkit is
  made there and stated in contracts: which files a step reads and writes, the
  exact ffmpeg argument lists, how duplicates are grouped, the order in which
  a pipeline runs and what it reports, page ranges, names and messages.
  - `text.rs`, `paths.rs`: characters, lines, decimal numbers, and the
    standard library's path operations as their documentation states them.
  - `commands/`: one module per command.
  - `pipeline/`: the pipeline model, the node catalogue, the dry run, the
    handler plans of each node type and the step-by-step run engine.
- `app/` is the command layer around the library: file and process I/O,
  the JSON shapes of the front end, and the loop that performs the engine's
  actions.
- `tests/` runs the library on concrete values.
