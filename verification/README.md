# broozelix-bridge

A thin bridge between the Helix editor and shell handlers: it opens files in a running
Helix (`open path[:line[:column]]`), passes commands to it (`remote`), and runs configured
shell commands when Helix reports events (`bridge`).

Layout:

- `src/` — the library, written and proved with Verus: command-line decisions (`cli`),
  the handler config and `$VAR` expansion (`config`), placeholder substitution and `when`
  filters (`template`), the open-argument parser (`open`), typable escaping and the socket
  line model (`protocol`), handler planning (`dispatch`), retry and exit decisions
  (`helix`, `remote`, `bridge`), and the text routines they share (`text`).
- `app/` — the program: clap, serde/TOML/JSON parsing, the environment, the file system,
  processes and the tokio runtime.
- `tests/` — tests of the library on concrete values.
