# autorize

`autorize` is an iterative-improvement harness. It runs an agent in throw-away
git worktrees, scores what the agent did, commits improvements onto a tracking
branch, discards everything else, and goes on until a deadline or another limit
is reached.

- `src/` is the core: a library that decides and renders, verified with Verus.
  It does no I/O. Two machines carry the alternation of decisions and outside
  work: `cli::session` for a run, `iteration` for one iteration of it. What
  holds of whole runs is stated in `cli::history`.
- `app/` is the program: the command line, files, child processes, git and
  signals. It does what the library hands out and tells it what came of it.
- `tests/` runs the library on concrete values.

Scores are binary64 numbers. The library holds them as bit patterns and reads,
compares and writes them exactly; see `score` and `shortest`.
