# goose-cli-tui

A terminal chat interface for goose, with its logic verified by Verus.

`src/` is the verified library:

- `history/`: the cell-based chat history (records with stable ids, the domain
  events that change them, unified-diff parsing) and its laws.
- `state.rs`, `overlay.rs`, `sink.rs`: the TUI state, the key-handling step of the
  TUI loop, the overlays, and what each output-sink call does to the state.
- `app.rs`, `content_layout.rs`, `content_render.rs`, `cache_key.rs`: the panes'
  layout arithmetic, the lines each record shows, markdown rendering (pulldown-cmark
  events, syntect highlighting), word wrapping and the placement of grapheme clusters
  into rows of cells, and the cache key of those rows.
- `stream_markdown.rs`: cutting streamed text into whole lines, the events of each line
  to render (streamdown's parser, list ends left out so numbering carries over), the
  renderer's palettes and its on/off setting.
- `gemini_cli.rs`: the Gemini CLI provider: prompt, arguments, reply, usage and the
  reading of its JSON stream.
- `text.rs`: character-sequence helpers shared by the modules.

`app/` runs it: the terminal, drawing with ratatui, the session thread that runs the
Gemini CLI, and drawing streamed markdown with streamdown's renderer.
