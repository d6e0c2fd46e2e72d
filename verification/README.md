# LabLink

LabLink bridges a laboratory frontend and the steel traction machines of
the lab. For a request it reads the traction results from every machine,
offers them to the frontend as a table to select from (ordered and matched
to the bars or profiles of the test minute), and fills the minute with the
rows the frontend sends back.

- `src/` is the library, written and proved with Verus: the matching of
  results to the bars of a minute, the padding and fitting of selections,
  the filling of minutes, the messages shown to the user, the reading of
  single-precision measurements from their bits, and how the answers of
  the machines and their errors are judged.
- `app/` is the HTTP server around it (axum, reqwest, opener and, on
  Windows, winprint): it moves JSON in and out and talks to the machines.
- `tests/` runs the library on concrete values.
