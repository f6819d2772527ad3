# zpl_toolchain_core

A toolchain for the Zebra Programming Language (ZPL): a lexer, a parser
driven by spec tables, a formatter, hex-escape handling, and a validator
that checks labels against the spec tables and an optional printer
profile. The library under `src/` is written in Verus. Its functions carry
contracts that Verus proves, except two small wrappers around the standard
library (`String::push` and `Debug` formatting of a string list), whose
contracts are trusted.

## Layout

- `src/text.rs`, `src/lexer.rs`, `src/opcode.rs`, `src/args.rs`,
  `src/parser.rs`, `src/ast.rs` — tokens, opcode lookup, argument
  splitting, and the parser that builds labels of command, field-data,
  raw-data and `;` comment nodes.
- `src/parse_spec.rs` — what a parse gives, as a state machine over plain
  values; `parse_str` and `parse_with_tables` are proved to return
  exactly its labels and diagnostics.
- `src/emit.rs`, `src/format.rs` — formatting an AST back to ZPL text:
  indentation, field-block compaction and `;` comment placement, with
  field data and raw payloads written back byte for byte.
- `src/hex_escape.rs` — validating and decoding `^FH` hex escapes.
- `src/tables.rs`, `src/profile.rs`, `src/state.rs` — spec tables, printer
  profiles and device state (units, resolution, session producers).
- `src/plan.rs`, `src/predicates.rs`, `src/constraints.rs`,
  `src/arg_checks.rs`, `src/command_args.rs`, `src/field.rs`,
  `src/tracker.rs`, `src/label_state.rs`, `src/semantic.rs`,
  `src/preflight.rs`, `src/pipeline.rs`, `src/validator.rs` — the
  validator: planning, argument and constraint checks, field tracking,
  structural semantics, preflight, and the per-label and whole-AST runs.
- `src/diag.rs`, `src/cli.rs`, `src/sarif.rs`, `src/coverage.rs`,
  `src/print_flow.rs`, `src/probe.rs` — diagnostics, report text, SARIF
  regions and rules, coverage summaries, the decisions of a print session,
  and those of the printer probes (the Bluetooth status query step by
  step).
- `app/` — the command-line program: argument handling, file and network
  I/O, and JSON and SARIF output.
- `tests/` — tests of the library.

Estimates that the validator makes in floating point (unit conversion to
dots, numeric ranges and rounding, object bounds) are not part of the
verified library; label-state keys with floating-point values (bar ratio,
label home, width, length, top and shift) answer "not computed".
