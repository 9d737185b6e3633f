# mycode

Verified core of the MyCode file tools and model-wire adapters, written in Verus.

`src/` is the library. Every function in it carries a contract, and Verus proves each
one except a few trusted wrappers around std's UTF-8 conversions and the `similar`
diff renderer, whose contracts are stated in their doc comments:

- `read`: the bounded, line-numbered scanner behind `read_file` and its rendering.
- `lines`, `edit`: exact and whitespace-tolerant replacement planning for `edit_file`.
- `handlers`, `file_tool_specs`, `write_plan`: what the file tools decide and answer,
  apart from the filesystem work itself.
- `file_mutation`: the change a file mutation commits, the output it reports, how its
  failures are classified, and what the probe before a creation decides.
- `protocol`, `tool_spec`, `canonical`: plain models of history items, tool names,
  tool specifications and canonical requests.
- `capabilities`, `tool_plan`: wire capabilities, the model-visible tool surface,
  namespace flattening, name encoding and decoding, and history adaptation.
- `chat`: the Chat Completions request body built from a canonical request.
- `chat_stream`: the Chat Completions stream as a state machine from parsed chunks to
  response events.
- `status_line`: the integer parts of the status-line metrics (turn token counts,
  minutes and seconds, joining the parts).
- `policy`, `text`: small shared pieces.

`app/` holds what Verus does not take: the async event-stream loop, JSON conversion,
and the floating-point status-line metrics. `tests/` exercises the library.
