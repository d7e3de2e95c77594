# urzua

A checker for a corpus of markdown decision records (ADRs, RFCs, specs and
the like): it parses each record's header, validates it against the record
types and rules a repository declares in `.urzua/config.yaml`, reconciles
records against each other, and reports in JSON.

- `src/` is the library, verified with Verus. It does no I/O: callers read
  files, ask git, and hand in plain values. Every public function states in
  its contract what it returns; the proof functions named `lemma_*` state
  the properties that hold across calls (waiving never hides a finding,
  notices never move an exit code, identifiers compare by numeric value,
  a new record's number is never one already taken, and so on).
- `app/` is the `urzua` command line: argument handling, the filesystem,
  git, the clock, reading the configuration file, and printing reports.
- `tests/` exercises the library on concrete values.
