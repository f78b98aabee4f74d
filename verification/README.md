# mihomo-tui

A terminal interface for the Mihomo proxy controller: it lists the proxy
groups, shows node latencies, switches the selected node of a group and the
routing mode.

- `src/` is the verified library (Verus):
  - `text`: percent-encoding of URL path segments (with its round-trip law)
    and the latency column text;
  - `json`: JSON values as parsed by serde_json, and member lookup;
  - `api`: reading the proxy table and delay answers, endpoint URLs, request bodies, the authorization header and the
    messages that failed exchanges are reported with;
  - `state`: the interface state and its decisions (keys, controller replies,
    latency tests), with the laws on navigation and refresh;
  - `view`: the screen model (header, group list, node panel, colors);
  - `cli`: the command line.
- `app/` is the program around it: HTTP with reqwest, the tokio runtime,
  terminal input with crossterm and drawing with ratatui.
- `tests/` runs the library on concrete values.
