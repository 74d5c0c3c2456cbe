# keifu

The logic of a terminal program that shows Git commit graphs, written in Rust
and verified with Verus.

- `src/` is the library: the graph layout and its colours, branch and stash
  listing, merged-branch classification, diff statistics, patches, the commands
  given to `git` and `gh`, key bindings, navigation, issues, and the caches
  and timers around them. Every function has a contract, and Verus proves it.
- `app/` is the program around it: it reads the repository through libgit2, runs
  `git` and `gh`, draws the graph, and hands the library plain values.
- `tests/` runs the library on concrete values; the tests that need commits make
  them in an object database in memory.

## Layout of `src/`

| Module | What it holds |
| --- | --- |
| `git::graph` | rows, lanes, cells and edges of the graph, and the laws they keep |
| `graph::colors` | the colours of lanes |
| `git::merged` | which branches have landed on the trunk |
| `git::diff`, `git::patch` | changed files, line counts, single hunks |
| `git::branch`, `git::commit`, `git::repository` | what the repository holds |
| `git::command`, `git::operations`, `git::askpass` | invocations of `git` and what they leave |
| `keys`, `action`, `keybindings`, `keymap` | from key events to actions |
| `graph_nav`, `merge_base`, `mouse` | moving through the graph |
| `issue`, `issue_action`, `gh` | issues |
| `interval_fetch`, `merged_branch_fetch`, `merged_cache`, `hashing` | timers, workers and caches |
| `oid`, `names`, `paths`, `text`, `scan`, `search`, `sorting` | values and collections |

## What is trusted

The library calls a few outside functions through declarations that Verus
believes: libgit2's reading and printing of object ids, chrono's reading of
timestamps and its clock, and the standard library's lower casing and
`String::push`. Each declaration says in its comment what it claims.
