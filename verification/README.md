# bytemaker

The logic of a coding agent for the terminal, verified with Verus.

- `src/` is the library: conversations and their compaction, the streamed replies of the
  model, memory across sessions, tools and hooks, background tasks, servers of the Model
  Context Protocol, the team of agents with its tasks, mailboxes, plans and worktrees, and
  the agent's loop. The contracts say what its functions
  return and change.
- `app/` is the program around it: the terminal, the connection to the model, files,
  processes and git.
- `tests/` runs the library on concrete values.

Functions whose names begin with `law_` state what holds across calls.
