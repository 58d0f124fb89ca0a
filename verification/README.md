# plottypus

A terminal system monitor for Apple Silicon Macs.

- `src/` is the verified library (Verus): settings and their file format,
  number and byte formatting, the decoding of kernel and sensor records,
  the process list (filter, sort, tree), the layout of every screen and
  overlay, hit testing, and the input state machine. Each public function
  carries a contract; the `law_*` proof functions state properties that
  span several functions (settings load back what was saved, small screens
  get the compact view, the kill prompt gates every signal, ...).
- `app/` is the program around it: terminal setup, the event loop, the
  sampling worker, macOS system calls, and painting with ratatui. Values
  measured as floating point (loads, temperatures, watts) are handled here.
- `tests/` exercises the library on concrete values.
