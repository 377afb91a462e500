# meriadoc

A task runner for people and AI agents: tasks, jobs and shells are declared in YAML spec
files with typed environment variables and risk annotations, and are run from the command
line, over the Model Context Protocol (stdio) or over HTTP.

## Layout

- `src/` — the library, verified with Verus. It holds the spec model and its validation,
  variable resolution and interpolation, the dotenv format, entity lookup, the run state
  machines for tasks and jobs, prompting sessions, the validation cache, discovery of
  projects, the texts and values every command reports, and the agent protocol's answers.
  Contracts state each function's result; the laws of the library (variable precedence,
  interpolation rules, masking of secrets, approval of risky tasks, runs stopping at the
  first failure, what validation reports, what discovery finds, the saved-variables round
  trip, the configuration's roots, the cache) are proof functions named `law_*`.
  Maps keyed by text are `StrMap`s: entries with distinct keys, kept in insertion order,
  whose view is a `Map`; a report that lists entries by name sorts them.
- `app/` — the `meriadoc` program around the library: command-line parsing, reading and
  writing files, running commands through `sh`, starting shells, the stdio and HTTP servers.
- `tests/` — tests of the library.
