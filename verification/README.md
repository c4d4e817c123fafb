# droidprobe

Inspect an Android device over ADB: device identity and hardware, battery,
storage, installed packages with their permissions and components, app data
directories of debuggable packages, and logcat snapshots. The same commands
drive a terminal UI and an MCP server for agents.

## Layout

- `src/` is the library, written in Verus and verified by it. Most functions
  carry a contract that Verus proves; the few calls into outside code (the
  fuzzy matcher, `Debug` quoting, a serde_json error's text, collecting
  characters into a `String`) sit behind small trusted wrappers whose
  contracts are taken on trust.
  - `text`: character-level primitives (`trim`, `lines`, `split_whitespace`,
    `split`, integer parsing, decimal formatting) with their specifications.
  - `parser`: parsers from command output to structured values (`getprop`,
    `dumpsys battery`, `/proc/cpuinfo`, `/proc/meminfo`, `df`, `wm`,
    `pm list packages`, `dumpsys package`, `iphonesubinfo`, `logcat`), and the
    exact decimal arithmetic behind `df`'s human-readable sizes.
  - `command`: the command catalog (metadata, shell lines, decoding, argument
    checks against shell injection), errors, and an in-memory transport.
  - `engine`: the command registry and the read-only boundary.
  - `tui`, `render`: terminal UI state, key handling, fuzzy package search and
    what each screen shows.
  - `tools`: MCP tool arguments.
  - `laws`: properties that span several functions.
- `tests/`: tests of the library on captured device output.
- `app/`: the program around the library: the adb transport, async command
  running and polling, JSON, the ratatui drawing code and the MCP server.
  `droidprobe tui` (the default) opens the terminal UI, `droidprobe mcp`
  serves MCP over stdio.
