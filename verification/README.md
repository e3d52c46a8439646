# sts2_sync_companion

The companion that uploads Slay the Spire 2 run files to the STS2 Dashboard,
with its logic written in Verus and proved against its contracts.

- `src/` is the verified library: pairing links (`deep_link`), the run
  folders and the order of run files (`run_files`), content hashes
  (`digest`), upload batching and per-file statuses (`upload`), the request
  bodies (`json`), the settings (`config`), the decisions behind each command
  (`commands`), and the background timer and tray (`background`).
- `app/` is the Tauri shell: commands, keychain, HTTP, file system, tray,
  deep-link listener and timer, calling the library for every decision.
- `tests/` runs the library on concrete values.
