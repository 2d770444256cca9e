# window_snap

A tray utility that snaps windows into column layouts on a Windows desktop.
A layout is a list of columns, each with a width in percent (tiled, left to
right) or an explicit `x_percent` (absolutely placed, free to overlap), and a
list of rules that pick the windows the column takes. A hotkey or a tray menu
entry applies a layout.

## Layout of the crate

- `src/` is the verified library (Verus):
  - `config.rs`: the configuration model, layout validation (sorted warnings,
    independent of the order in which layouts were read), the layout summary,
    the hotkey map and the configuration paths.
  - `geometry.rs`: slot geometry for a layout on a monitor, with the laws that
    a validated layout stays on screen, that tiled slots are one gap apart,
    that the last tiled slot always ends at the right edge minus one gap, and
    that once the earlier tiled widths pass 100 the row runs off the right
    edge and the last tiled column is left a negative width.
  - `windows.rs`: matching windows to rules, claiming windows for columns,
    monitor order, which windows are worth managing, the plan that applying
    a layout produces, and the rectangle to request for a window so that its
    visible frame, inside invisible borders, lands on its slot.
  - `hotkey.rs`: parsing hotkey strings such as `ctrl+alt+1`.
  - `menu.rs`: the tray menu entries and what a click on each asks for.
  - `text.rs`: string primitives (case folding, substring search, ordering).
- `app/` is the program around it: the event loop, tray icon, global hotkeys,
  reading the TOML file, Win32 window enumeration and movement, message boxes
  and the startup registry entry.
- `tests/` runs the library on concrete inputs.
