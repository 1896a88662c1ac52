# Desklings

Desktop companions: small animated characters that fall onto the bottom of
the screen, walk about, and can be picked up and thrown with the mouse.

The crate is written in Verus. `src/` is the verified library:

- `condition` — the animation condition language (`speed < 200 && ...`):
  parser with an exact grammar, and evaluation at whole speeds that reads
  each literal as the `f64` it parses to, computed with exact integers
  (`natural` holds the arbitrary-size numbers this needs);
- `schema`, `compiled`, `compile`, `error` — the deskling description and
  its compilation, with every rejection and its message;
- `selection` — which animation plays while a mode lasts, and the weighted
  random choice of the next idle animation;
- `deskling` — frame stepping, mode changes, what a window is told;
- `pointer`, `arbiter` — what a tick does with the mouse, and which of
  several overlapping desklings owns the cursor;
- `hitmask` — per-pixel hit masks decoded from sprite PNGs (with `png`);
- `instances`, `startup` — instance identifiers, window labels, and which
  instances start or stop;
- `ordered_map`, `settings` — the user settings;
- `loader`, `reload` — listing installed desklings and debouncing reloads;
- `text` — decimal rendering and parsing, character helpers.

`app/` is the Tauri application around it: windows, threads, the mouse
hook, file access, serde, and everything computed in floating point
(physics, dragging, monitor geometry, evaluating conditions at run time).

`tests/` exercises the library on concrete values.
