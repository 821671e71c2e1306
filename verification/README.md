# ez-stack

Stacked pull requests with one worktree per layer: which branches stand on which, what has to be
rebased, merged, folded, split or cleaned up, and what must never happen on the way.

- `src/` holds the rules, verified with Verus. Decisions that need no outside work are plain
  functions. What alternates with git, the file system or GitHub is a state machine: it names the
  next action, takes the answer and moves on. Contracts are stated over the recorded forest
  (`stack.rs`) and over views of the machines; public proof functions named `law_...` state what
  holds across functions.
- `src/json.rs` builds receipts and hands them to `serde_json`; it is the only file with trusted
  declarations.
- `app/` is the command line: it parses arguments, runs `git` and `gh`, reads and writes the saved
  stack, and drives the machines.
- `tests/` runs the library on concrete stacks and repositories kept in memory.
