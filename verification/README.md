# rtk_unreal

Turns the output of Unreal Engine builds, UAT runs, cooks, packaging, commandlets and automation
tests into a short report: the diagnostics with the lines that explain them, the warnings, the
summary lines, and the number of progress messages that were left out.

- `src/` is the verified library. `filter::filter_output_with_exit_code` goes from a raw log to its
  report; `scan` decides what is kept of each line, `report` writes it down, `patterns` holds the
  regular expressions, and `laws` and `layout` state what holds of every report.
- `app/` runs a native command and prints the report on its output.
- `tests/` holds logs as the Unreal tools write them, and tests of each part.

The library trusts what `regex` answers for a pattern and a text, and `Path::file_name`; everything
else is proved. A project path is read as the platform reads paths, so that a report names
`C:\Lyra\Lyra.uproject` by its last component on Windows and as a whole on Unix.
