# react

A verified library for evaluating binary patch-presence testing: it models the
evaluation dataset (CVE records, test binaries, labels), builds the paths and
shell commands the evaluation and the bitcode builder need, selects which CVEs
and test binaries are run, and tallies the classifications into confusion
counts, overall, per CVE and per compiler and optimisation level.

- `src/` is the library, written and proved with Verus. `text` and `order`
  hold the string operations (prefix, infix, splitting, lexicographic order)
  the rest is specified with; `dataset`, `config`, `scripts`, `metric` and
  `evaluation` hold the project's logic and the laws that relate its parts.
- `app/` is the command-line front end: argument parsing, JSON-lines input,
  the IR analysis, process execution, file output, and the floating-point
  metrics. Invoked as `build_reference_bitcode` it runs the bitcode builder,
  otherwise the evaluator.
- `tests/` exercises the library on concrete values.
