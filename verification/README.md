# niri-groom

A fullscreen overlay for the [niri](https://github.com/YaLTeR/niri) Wayland
compositor that shows every workspace and window as a proportional map, with
workspace names and window titles spelled out, and lets you kill, rename and
rearrange them from the keyboard or with the mouse.

The crate is written in Verus: the library under `src/` is verified, and the
program around it under `app/` is ordinary Rust.

## Layout

- `src/` — the verified library:
  - `snapshot.rs` arranges a niri snapshot into the map (windows onto
    workspaces, workspaces onto outputs, outputs left to right);
  - `model.rs` holds the map and the navigation steps over it;
  - `overlay.rs` is the keyboard state machine: selection, rename field,
    theme picker, legend, solo mode and marks, each keystroke yielding a
    command for the program to carry out;
  - `drag.rs` turns a mouse drop into niri's own indices and requests;
  - `niri.rs` holds niri's data and the `niri msg action` requests;
  - `autoshow.rs` debounces the focus requests of the auto-show mode;
  - `edit.rs` is the readline-style line editor of the rename field;
  - `config.rs` reads settings from, and writes the theme into, the KDL config;
  - `badges.rs` reads the badge command's output;
  - `opts.rs` parses the command line;
  - `theme.rs` lists the bundled palettes;
  - `text.rs` holds the character-level helpers.
- `app/` — the GTK4 layer-shell program: running `niri msg`, reading and
  writing files, drawing with cairo, and pointer geometry.
- `tests/` — tests of the library.
