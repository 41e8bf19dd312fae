# codex_logic

Verified logic of a coding agent's tool plumbing, written in Verus.

- `src/progress.rs`: routing of MCP progress notifications to the active call
  (register, bind a generated token, unregister, look up), with its laws.
- `src/additional_context.rs`: the key-ordered store of additional context,
  the model-visible projection of an entry (the `library` member of the
  `application` entry is hidden) and the fragments a merge shows the model.
- `src/web_search.rs`: which `web.run` commands are served, how arguments
  become commands, and how a command set is reported as a web-search action.
- `src/search_call.rs`: the steps of one web-search call as a state machine.
- `src/json.rs`, `src/text.rs`, `src/key_order.rs`: JSON operations made by
  `serde_json`, blank text, and the order of string keys.
- `app/`: shared state, channels, floating-point progress values, serde and
  schemars types, and the asynchronous driver of a search call.
