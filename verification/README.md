# browser_control

The decisions behind two commands of `browser-control`, verified with Verus:

- `click` chooses a page, checks what is to be clicked, builds the request and reports the result;
- `curl` runs the system curl with the credentials of a browser and turns what it gives into a
  tool result, in which HTML pages are shown as bounded readable text.

## Layout

- `src/text.rs`, `src/utf8.rs`: texts as sequences of characters, and their encoding.
- `src/json.rs`, `src/pattern.rs`, `src/blob.rs`, `src/origin.rs`: what the library relies on
  from `serde_json`, `regex`, `base64` and `url`, stated as contracts.
- `src/targets.rs`, `src/click.rs`: the pages of a browser and clicking in them.
- `src/arguments.rs`, `src/headers.rs`, `src/capture.rs`, `src/curl.rs`: a run of curl.
- `src/markup.rs`, `src/html.rs`, `src/mcp.rs`: tags and elements, the readable text of a page,
  and the tool result.
- `tests/`: what the compiled library does on given inputs.
- `app/`: processes, files and connections around the library.
