# letters-we-never-sent

The library behind `letter`, the triage tool for unsent letters, verified
with Verus.

- `src/text.rs`: whitespace, trimming, substring search, joining and decimal
  notation, each stated over the characters of a string.
- `src/json_scan.rs`: the minimal reading of `cadence list --json` output:
  top-level brace-delimited objects, and the string value of a field in a
  flat object.
- `src/process_output.rs`: what a finished `cadence` run hands back, and the
  UTF-8 decoding of its output.
- `src/cadence_intake.rs`: weekly-record intake: the listing's records, the
  ledes of their letters, and the outcome of an intake.
- `src/cadence_record.rs`: the monthly-record registration: its arguments and
  what its outcome means.
- `src/cli.rs`: the command line's arguments, the state filter, and the text
  of `list`, `stats` and `curate`.
- `app/lib.rs`: clap parsing, running `cadence`, reading letter files, the
  clock and `$EDITOR`.
