# trmnl_console

Terminal snapshots for "TRMNL Console" private plugins, verified with Verus.

- `src/sbuffer/`: the SBuffer encoding of a terminal screen (run-length encoded cells
  with private-use control codes for colors and attributes): `cell.rs` and `encode.rs`
  encode a screen, `decode.rs` states what an SBuffer string shows and proves that an
  encoded screen decodes to its cells and their formatting, `html.rs` renders SBuffer
  strings as HTML, `html_text.rs` and `html_style.rs` prove that the rendering shows the
  decoded cells in the spans of their classes, `terminal.rs` reads a wezterm terminal
  into plain values.
- `src/payload.rs`: the webhook bodies that carry a snapshot.
- `src/relay.rs`: the merge strategies of a self-hosted webhook endpoint, how a push
  is answered, and the in-memory cache of the states it stores.
- `src/webhook.rs`: which webhook responses are failures, how a failure is described, and
  the order of the requests of a send.
- `src/virtual_terminal.rs`, `src/terminal_subprocess.rs`: the decisions of the virtual
  terminal and of the subprocess that drives it.
- `src/demo.rs`: the demo screen; `src/preview.rs`: the order of the preview's device
  models; `src/json.rs`: JSON values; `src/json_parse.rs`: reading what `serde_json` parses into them.
- `app/`: the command line, HTTP, PTY and file I/O around the library.
