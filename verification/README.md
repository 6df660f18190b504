# os-active

A checker of the activation state of Kylin, UOS, Ubuntu and Windows systems,
with a small window that shows the verdict, asks for a confirmation and, on
exit, prints an ETest report `R<{json}>R`.

- `src/` is the library, verified with Verus:
  - `text` — `str` operations (lines, trim, split, find, integer parsing) over
    character sequences, each against a model of what the standard library
    does;
  - `date` — day numbers of the proleptic Gregorian calendar, both ways, with
    the proofs that the two conversions undo each other and keep the order of
    dates;
  - `active` — which commands a system needs and what their output means
    (keyword verdicts, license terms, expiry dates);
  - `sys` — os-release, cpuinfo, registry output, and the serial-number
    sources in their order of preference;
  - `flow` — the confirmation flow of the window and the exit report;
  - `config`, `model`, `detect`, `ui` — settings, result types, assembly of a
    result, and what the window shows.
- `app/` runs the commands, reads the files, draws the window (eframe) and
  writes the log (e-log). The verdicts, the rows and messages of the
  panels, the confirmation flow and the exit report come from the library;
  app/ lays them out, colours them and serialises the report.
- `tests/` exercise the library on concrete values.
