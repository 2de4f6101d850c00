# alttab

An Alt+Tab window switcher daemon for wlroots-based Wayland compositors.
Running `alttab` starts the daemon, which tracks the open windows in
most-recently-used order through the foreign-toplevel protocol; running
`alttab --show` (bound to Alt+Tab in the compositor) asks the daemon to show
an overlay listing the windows. Tab / arrow keys move the selection, releasing
Alt or pressing Return activates the selected window, Escape cancels.

## Layout

- `src/` — the verified library (Verus):
  - `color.rs` — hex colour parsing, default colours, ARGB packing;
  - `config.rs` — layout defaults and validation, overlay size, config path;
  - `toplevel.rs` — window tracking and the MRU order, with its invariant;
  - `switcher.rs` — the overlay state machine (show, keys, selection, close);
  - `icons.rs` — PNG decoding to RGBA (through the `png` crate), the icon cache;
  - `desktop.rs` — XDG directories, desktop-entry parsing, icon file candidates;
  - `pixels.rs` — drawing scaled icons and blending glyph pixels on the canvas;
  - `text.rs` — line splitting, trimming, path joining and other text helpers;
  - `ipc.rs` — the command socket path and messages.
- `app/` — the program: Wayland connection (smithay-client-toolkit), event
  loop, file reading, fonts (fontdue) and vector drawing (tiny-skia).
- `tests/` — tests of the library.
