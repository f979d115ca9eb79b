# forja

forja manages the agents, skills and teams of a coding agent: it reads a
project's specs, tracks, decisions and plans, validates them, writes a
context file, scans a project for its technologies and recommends skills
from a registry, installs skills, and runs tasks through the agent's
command line.

- `src/` is the verified library (Verus): the file formats' logic
  (frontmatter, track tables, specs, plans, run logs), validation and its
  dependency-cycle check, context generation, linting, technology
  detection and skill matching, the registry catalog and diffs, the state
  of the terminal forms and their keys, and the desktop app's decisions.
  Files and processes reach it as plain values.
- `app/` does the input and output: reading and writing files, git, the
  agent's command, the terminal forms and the desktop commands.
- `tests/` runs the library on concrete values.

The agent's command name is read from `FORJA_AGENT_CLI`; its home
directory from `FORJA_AGENT_HOME` (default `~/.<command>`).
