# Steward

A launcher and plugin platform. One input line finds applications (by fuzzy
match, by pinyin, by how often they are used), evaluates expressions, opens
addresses, and routes the query to plugins that run in processes of their own.

- `src/` is the logic, written in Rust and proved with Verus: search and ranking,
  the calculator's grammar, address recognition, query routing, the plugin host's
  state machine, the wire protocol, manifests, the launcher, plugin views and
  windows, the calendar, hotkeys, settings. Every public function states in its
  contract what it returns or changes. What holds over several functions stands
  as public proof functions beside them; `src/host_laws.rs` holds those of the
  plugin host.
- `app/` is the program around it: processes, SQLite, the clipboard, hotkeys of the
  operating system, floating point, and a line-based front end.
- `tests/` runs the library with the crates it calls.

The library calls `nucleo` (fuzzy matching), `pinyin` (readings), `regex`
(triggers), `tyme4rs` (Chinese calendar) and `global-hotkey` (hotkey text) through
small functions whose contracts are believed; each says in its comment what it
claims of the crate.
