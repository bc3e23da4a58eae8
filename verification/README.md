# papercut

A journal of small complaints ("papercuts") that agents and humans file while
they work. Each complaint becomes a line of JSON in an append-only journal; it
can be listed, resolved, deleted and checked for damage.

Layout:

- `src/` is the library, verified with Verus: record ids, the cleaning of a
  complaint's text, reading and healing journal lines, id matching, the
  listing (text and Markdown), the health report, errors and exit codes, and
  the resolution of model, user and harness from flags and surroundings.
- `app/` is the command-line program around it: argument parsing, the clock,
  the environment, `git`, file locking, JSON encoding and the journal file.
- `tests/` runs the library on concrete values.
