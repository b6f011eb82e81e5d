# macro_manager

The logic of MacrosManager, a desktop helper that stores per-game weapon
bindings, hotkeys and macros, written in Verus with its behaviour stated in
contracts and proved.

## Layout

- `src/` — the verified library.
  - `text.rs`, `fmt.rs`: characters, trimming, splitting, joining, decimal and
    hexadecimal rendering and parsing, with their specifications.
  - `types.rs`: the stored data (profiles, bindings, macros, configuration) and
    the UI snapshot types.
  - `amc_import.rs`: `.amc` files — BOM-selected UTF-8/UTF-16 decoding, the
    line command language, identifiers from file names.
  - `hotkey_util.rs`: hotkey labels, both ways.
  - `commands.rs`: the edits the UI requests, hotkey validation, the UI
    snapshot and the macro timeline preview.
  - `profile_manager.rs`, `config_manager.rs`, `embedded_icons.rs`: the
    built-in profiles, the bundled icons (a table of `data:` URLs that the
    application reads from its `assets/` folder) and the reconciliation of a
    stored configuration with them.
  - `input_listener.rs`, `macro_engine.rs`, `executor.rs`: what an input event
    triggers (a weapon's hotkey arms it; the fire button runs the armed
    weapon's macro in its mode), how playback proceeds, and which input a step
    sends.
- `tests/` — tests of the library on concrete values.
- `app/` — the unverified side: JSON shapes, the configuration file, the
  command layer over shared state, playback threads and the Windows hooks.

## Proved properties

Besides each function's contract, the library proves: labels of hotkeys read
back as the same hotkey; validation accepts exactly the configurations whose
enabled bindings claim distinct hotkeys per game, and every successful edit
leaves such a configuration; importing a macro keeps one macro per identifier;
syncing with the built-in profiles orders weapons by built-in position and is
idempotent across calls, as is applying bundled icons; identifiers from file names have a
fixed shape and read back as themselves; UTF-8 (with or without a
byte-order mark) and UTF-16 (either byte order) text reads back; blank and
comment lines change no parse, and each command line gives one step;
clearing a hotkey twice is clearing it once; only the fire button runs
macros; a repeated press of a held key is ignored until its release; a
sliced sleep lasts exactly as long as asked.
