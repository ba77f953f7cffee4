# ccstatusline_rs

A status line formatter for coding-agent CLIs: it reads the agent's JSON
payload on stdin and prints one or more lines of widgets (model, working
directory, context usage, session tokens and cost, rate-limit timers, git
state), with an agent-editable JSON config.

## Layout

- `src/` — the library, verified with Verus: payload reduction into a
  context, the widgets, segment composition and ANSI output, the color
  parser and on/off decision, the config operations (`add`, `remove`,
  `color`, `validate`, `apply`), the git status and diff parsers and the git
  probe as a state machine, the transcript token tally, and the decisions of
  `install` / `uninstall` (mode, wrap pointer, command line, backups).
  Public proof functions state the laws the library keeps (for instance
  that a quoted command reads back as the path it quotes, or that every
  config edit keeps a valid config valid).
- `app/` — the executable around it: argument parsing, stdin/stdout, the
  config file, running `git`, reading transcripts and settings files, and
  the JSON shapes (serde and schemars).
- `tests/` — tests of the library through its public API.
