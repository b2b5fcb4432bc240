# cargo-bench-compare

Benchmarks two git revisions of a Rust workspace against each other. Each revision
gets its own detached worktree and target directory; both are built with
`RUSTFLAGS="-C target-cpu=native"` and, unless told otherwise, with the profile
`release-tuned`.

```bash
# criterion: the working tree against the merge base with the default branch
cargo bench-compare -p core --bench hot_path

# criterion: two explicit revisions
cargo bench-compare -p core --bench hot_path --rev 04afe73 --rev-base main

# a program, timed by the wall clock, three runs a side, bound to core 2
cargo bench-compare --bin tool --args "full 1000" --reps 3 --runs-on-core 2

# a program that prints its own metric, with trailing arguments
cargo bench-compare --bin tool --metric-regex 'steps/sec:\s*([\d.]+)' -- full 1000

# what is cached, and how to get rid of it
cargo bench-compare cache list
cargo bench-compare cache clean
```

## Layout

`src/` is the library: everything that decides or computes, written in Verus with
contracts that are proved. It starts no process and touches no file; it says what
to run next and what follows from the reply.

| Module | What it holds |
| --- | --- |
| `session` | a comparison from end to end: checks, labels, order of steps, pairing of results |
| `cli` | a request and the mode that it asks for |
| `git` | commands in words, resolving revisions, snapshots of a dirty tree, worktrees, cache keys |
| `workspace`, `candidates` | the package of a target, shell completion |
| `builder`, `runner`, `criterion` | arguments, output and results of cargo, of the measured program and of criterion |
| `progress`, `report`, `stats` | status line, line scanner, table, verdicts |
| `cpus`, `governor`, `isolation` | CPU lists and masks, governors, isolating a core and undoing it |
| `clean` | listing and removing caches |
| `json`, `patterns`, `bytes` | what is taken from `serde_json`, `regex` and the standard library on trust |
| `text`, `numbers`, `order`, `paths` | texts, numbers, order and paths |

`session::next_step` gives the steps of a comparison in order and `session::to_undo`
what undoes them. Steps that depend on replies are functions of the replies seen so far
(`git::resolve_spec`, `git::default_base`) or of a state and the last reply
(`isolation::isolate_inner`, `progress::Screen::render`). Proof functions named
`law_...` state what holds across functions.

`app/` is the program around the library: arguments, files, processes, threads and
floating-point statistics.
