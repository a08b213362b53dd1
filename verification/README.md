# csswitch_gateway

A verified library for a local gateway that lets a desktop client talk to several providers of
Anthropic-style inference, and the small service around it.

- `src/` is the library, in Verus. Every function states what it returns; the modules whose names end
  in `_laws`, and `tool_schema_bounds`, `kimi_search_noise_counts`, `kimi_search_noise_streams` and
  `kimi_search_noise_agreement`, hold what is proved of several functions together.
- `tests/` runs the library with the real crates that it calls.
- `app/` is the service: sockets, files, processes and requests to the providers.

What the library does:

- `anthropic_compat`, `deepseek_compat`, `policy`, `openai_responses`, `tool_schema`: requests and
  responses in the shapes that the providers take and give.
- `kimi_search_noise`, `kimi_coding_search`, `kimi_web_search_adapter`, `sse`: web search and streams.
- `reasoning_state`, `reasoning_rollback`, `canonical_json`, `crypto`: thinking that is kept sealed between turns.
- `json`, `json_model`, `json_fields`, `text`: values and texts, and records that are read from them.
- `config`, `provider_contracts`, `profile`, `client`, `launch`, `upstream_url`: settings.
- `messages`, `official_passthrough`, `wire`, `control`, `debug_capture`, `timestamp`: the service's
  own protocol, its logs and its errors.
- `sandbox`, `paths`: the daemon that runs in a directory of its own.

The name of the client product is a setting: `CSSWITCH_CLIENT_NAME`, as it stands in ids, paths and
host names, and `CSSWITCH_CLIENT_TITLE`, as it is shown. The service reads the provider contracts from
`~/.csswitch/provider-contracts.v1.json` and the page of its console from `~/.csswitch/index.html`.
