# agent

A terminal coding agent whose decision logic is a Verus-verified library.

- `src/` is the library. Every function in it carries a `requires`/`ensures`
  contract that Verus proves: the conversation state machine and its retry,
  compaction and tool-call rules (`agent`, `context`, `storage`), the draft editor
  (`input`), the chat screen's key handling (`chat`), skill discovery rules and
  prompt budgeting (`skills`), the built-in tools' argument and reporting rules
  (`tools`), streaming response assembly (`event`, `provider`), and the chat
  pane's layout: markdown as styled lines, wrapping and tables (`markdown`,
  `chat_view`, `render`, `layout`). Calls into outside crates (pulldown-cmark's
  parser, ratatui's text measurement, regex, base64, serde_json string quoting,
  UTF-8 decoding) sit behind small trusted wrappers whose contracts state or name
  what the call returns.
- `app/` is the program around it: the terminal loop, files, processes, the
  model's HTTP stream, configuration parsing and tracing setup. It hands the
  library plain values and performs the actions the library decides on.
- `tests/` exercise the library on concrete inputs.
