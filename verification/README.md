# amdgpu_top_nvitop

An nvitop-style terminal view of AMD GPUs and NPUs, on top of
`libamdgpu_top`, with btop themes.

- `src/` is the verified library (Verus): the text of `/proc/stat`,
  `/proc/meminfo` and `/proc/cpuinfo`; btop theme files and color values;
  the sample history and its sparkline cells; gauge text; section layout;
  the device, process and NPU table cells; the header clock.
  - `text.rs` words, lines, trimming, number parsing and decimal text
  - `cpu.rs` CPU time deltas, memory counters, CPU model name
  - `theme.rs` colors, theme files, theme search paths and names
  - `history.rs` bounded sample history and sparkline cells
  - `gauge.rs` fixed-width gauge text
  - `panels.rs` section heights and short panel texts
  - `rows.rs` table cells
  - `clock.rs` calendar date and time of day from epoch seconds
- `app/` is the program: it reads the files and the devices, works out
  percentages and gradient colors in floating point, and draws with
  `ratatui` and `crossterm`.
- `tests/` runs the library on concrete values.
