# Helix server core

The machine-control server of Helix, with its decisions verified by Verus.

- `src/` — the `helix` library, every function with a contract:
  - `text` — character classes, trimming, decimal numbers, line splitting;
  - `gcode` — comments, block delete, O-word lines and the search for the
    line that closes a block;
  - `words` — the G and M code tables, `G10` offset selection and the
    precedence of a line's effects;
  - `control` — the O-word executor: subroutines, calls and returns,
    `if`/`elseif`/`else`, `while`, `repeat`, and the executed-line budget;
  - `expr` — the expression cursor and the scope rule of `#` parameters;
  - `params` — parameter storage with its subroutine frames;
  - `machine` — the machine state machine, and the reading of controller
    replies;
  - `scan` — the scan-session rules and the plan of the G-code that
    reproduces a scanned part;
  - `api` — program names, the saved tool-table order, control requests.
  Each module ends with its laws: public proof functions stating what holds
  across calls.
- `app/` — the server around the library: HTTP and WebSocket (axum), the
  simulator and the LinuxCNC adapter (tokio), and the floating-point parts
  (expression values, geometry, motion), which the library leaves out.
- `tests/` — tests of the library on concrete values.
