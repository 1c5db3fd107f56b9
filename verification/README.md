# gaveldrop

A test engine where one case is one YAML file: how to invoke a program, how its dependencies
must respond, and what the result must contain.

This crate is written in Verus. Every function under `src/` carries a contract that Verus proves.

- `src/` — the library: the fake's rule engine, journal and counter naming; the case format and
  the refusals it makes at load time; the environment isolation gives a subject (a case never
  sees the real home directory); the file-tree difference; the adapters' decisions; the
  configuration's selection and sharding; the verdict-independent parts of the runner; every
  report renderer (terminal, JSON Lines, JUnit, TeamCity, GitHub annotations, HTML, badge), and
  the framing of a report read back for merging.
  Laws that span functions are public proof functions named `law_*`.
- `app/` — what touches the machine: reading files and YAML, laying out the isolated directory,
  spawning and timing subjects, the JSON schema of the case format, and the `gaveldrop-fake` binary that faked tools are linked to.
- `tests/` — the library's tests, run against the compiled crate.
