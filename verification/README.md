# SpaceCal for Monado

A GTK4/libadwaita tool that aligns the tracking spaces of the Monado OpenXR
runtime (inside-out tracked devices against lighthouse tracked ones),
with its decision logic verified by Verus.

## Layout

- `src/` — the verified library:
  - `monado.rs`: devices grouped by tracking origin, battery readings
    applied to them, origin lookup;
  - `ui/`: device records and labels, the application state (selections,
    connection, battery entries that survive disconnects, movement
    intensities), the device picker's rows, and the window's decisions
    (menus, polling, picker counting, battery and confidence display);
  - `xr/`: the XR thread's decisions (waiting, session rebuilds, motion
    polling, command handling), movement tracking, device lookup and the
    NUL-terminated text of MNDX device properties;
  - `calibration/`: sample and floor-height collection, and the course of
    a run step by step (countdown, progress, completion, abort);
  - `preset.rs`, `config.rs`: preset file naming and listing, settings;
  - `keyed.rs`, `order.rs`, `text.rs`: keyed tables, a stable sort by
    string keys, and the string primitives they rest on.
- `app/` — the program around it: the GTK window, libmonado IPC, the OpenXR
  session and MNDX calls, the floating-point calibration math, and reading
  and writing the settings and preset files.
- `tests/` — tests of the library.
