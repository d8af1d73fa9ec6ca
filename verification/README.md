# warp (git sidebar core)

The logic behind the terminal app's git sidebar, its read-only diff panel,
the automatic code-selection context, the read-skill action and the shell
polling interval, written in Verus and verified.

- `src/git.rs`: the git data types and the parsers of `git status
  --porcelain=v2 -z`, `git log` and `git show --numstat` output, the rename
  path expansion and the changed-file count.
- `src/git_history.rs`: the history model as a state machine; operations
  return the commands (events, requests, aborts) that carry them out, and
  request results come back tagged with a generation.
- `src/git_history_view.rs`: the sidebar's own state and action handling.
- `src/git_history_diff.rs`: the diff panel's state machine and line texts.
- `src/diff_state.rs`: a unified diff patch split into numbered hunks, and
  the check for hidden bidirectional control characters.
- `src/auto_selection_context.rs`, `src/read_skill.rs`,
  `src/shell_command.rs`, `src/text.rs`: the remaining logic, the
  character helpers and the comparison of paths by component.
- `app/lib.rs`: runs `git`, drives the sidebar, its history model and the
  diff panel with its output, polls the repository for changes, and carries
  out read-skill plans.
