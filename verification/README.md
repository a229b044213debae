# tile_wm

A taskbar and tiling window manager for Windows virtual desktops. The
decisions it makes are a Verus-verified library; the Windows API, the Tauri
frontend and the configuration file stay in a thin unverified application.

## Layout

- `src/` — the verified library (`tile_wm`):
  - `tiling` — the tiling layouts (2, 3 and 4 windows, mirrored with
    `flip_main`) and the proof that tiles stay inside the work area and
    never overlap;
  - `windows` — which windows are tiled, the tiling plan (sorted by handle,
    rotated by the layout cycle) and the applications shown per desktop;
  - `snap` and `state` — the Win+Arrow snap state machine, remembered bounds,
    per-desktop tiling modes and layout cycles;
  - `hotkey` — which key events the keyboard hook takes;
  - `desktop` and `guid` — desktop numbering from the registry values,
    GUID text parsing, neighbouring desktops;
  - `monitor` — the re-tiling debounce and the taskbar raise/lower decisions;
  - `geometry`, `text`, `encode`, `config` — window placement arithmetic,
    title trimming and truncation, BMP/base64 icons, configuration defaults.
- `tests/` — tests of the library on concrete values.
- `app/` — the application: Tauri commands, Windows API calls, config.toml.
