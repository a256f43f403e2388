# codetracer-flow-recorder

A recorder of Flow / Cadence program runs for CodeTracer. A Go helper runs
the program and reports what happened as NDJSON events; the recorder turns
those events into the operations of the CodeTracer trace writer.

The library under `src/` is verified with Verus. It holds:

- `text`, `printed`, `numeric`: character-level text helpers, the parsers of
  Cadence's printed values (arrays, dictionaries, structs, resource handles),
  fixed-point scaling, decimal to big-endian bytes, and the reference address
  hash;
- `value`, `decode`: typed value records and what each printed value decodes to
  under its Cadence type;
- `events`, `ops`: the helper's events, the framing of its NDJSON output, and
  the writer operations;
- `paths`: which source file a step belongs to, and per-line byte lengths;
- `tracer`, `handlers`, `conversion`: the recorder's state machine, event by
  event, with its exact specification;
- `invariants`, `counts`, `typing`: what every run keeps (variables go to open
  steps, a step names a registered path, columns only where a file has a line
  table, paths and types registered once, every value names registered types,
  counts of calls, returns, steps and variables kept);
- `replay`, `cli`: transaction replay settings and the command line's choices.

`app/` is the program around it: the command line, environment, files, the
helper process, the JSON decoding of the helper's output, and the trace writer
that performs the operations.
