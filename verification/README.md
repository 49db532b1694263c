# nu_sidecar

A verified library behind two nushell plugins:

- `bashify`, which rewrites the bash idioms people type interactively
  (`&&`, `||`, `export`, `$(...)`, backticks, redirects, `[[ ... ]]`,
  `alias`, `. file`, `VAR=val cmd`) into nushell syntax. Every rule is
  quote-respecting, and a line no rule recognises comes back unchanged.
- `llmchat`, which asks a configured LLM provider questions with the
  session's recent terminal activity as context.

Layout:

- `src/` holds the logic, verified with Verus: `rules/` (the translator),
  `provider.rs`, `config.rs`, `llm_client.rs`, `transcript.rs`, `xdg.rs`,
  `commands.rs` (what the plugin commands decide) and `text.rs` (a model of
  strings as character sequences). Each public function's contract states
  its result exactly; the laws the library keeps are public proof
  functions whose names begin with `law_`.
- `app/` holds what Verus does not see: the nushell plugin protocol, file,
  terminal and network I/O, the clock, the environment and serialisation.
- `tests/` runs the library on concrete inputs.
