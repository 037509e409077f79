# gh_actui

The logic of a terminal browser for the GitHub Actions workflows of a repository: which workflows
are shown, how their recent runs are fetched, cached and summed up, how a failed scheduled run is
traced to its failing tests, and how keys, clicks and commands change the session.

- `src/` is the library. Each function states what it returns in `requires` and `ensures`, and
  Verus proves it. Calls into other crates and into parts of the standard library without a
  specification stand behind small trusted functions, which say in their comments what is
  believed of them.
- `src/laws.rs`, `src/continuity.rs` and `src/history.rs` state what holds of sessions as a whole:
  which changes stay within a view, what saving and loading keeps, and that runs fetched page by
  page come to the same status as the whole history. Laws of a single part stand beside it.
- `tests/` runs the library on concrete values.
- `app/` is the program: arguments, files, the `gh` process, threads, JSON, the terminal, and the
  floating-point numbers that are shown.
