# markdown-viewer

A desktop Markdown viewer built on `egui`, with its document logic written in
Verus and proved against its contracts.

- `src/` is the verified library:
  - `events.rs` takes pulldown-cmark's event stream over into plain values;
  - `parser.rs` builds the block tree from that stream (`parse_events`,
    `MarkdownParser::parse`), every block described by a spec function over
    the events;
  - `document.rs` holds the block and inline types with their models and the
    plain text of inline content; `anchor.rs` the heading anchor slugs;
  - `spans.rs` lays inline content out as styled runs and clickable link
    ranges; `render.rs` holds the smaller rendering decisions;
  - `json_types.rs` is the JSON document form of the blocks;
  - `config.rs`, `file_loader.rs`, `file_browser.rs`, `app_state.rs` and
    `paths.rs` hold the settings, loading, browser and pane rules.
- `tests/` runs the library on concrete inputs.
- `app/` is the program around it: windowing and drawing with `egui`,
  reading files and directories, dialogs, settings persistence with `serde`
  and `toml`, and the C entry points that hand out JSON.
