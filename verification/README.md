# rdm_core

A plan repository library: projects, roadmaps, phases, tasks, plans,
reviews and runs kept as documents in a store, with the operations that
create, update, link, archive, split, merge and report on them. Every
operation in `src/` is verified with Verus against a contract over the
store's files.

## Layout

- `src/store.rs`: `MemoryStore`, the store. It holds each file as a parsed
  document (or as raw text for files that are not documents), and its
  `files()` view maps each path to its entry. Writes take effect at once;
  there is no separate staging or flushing step, so an operation's contract
  states the files it leaves whether it succeeds or fails.
- `src/model.rs`, `src/error.rs`, `src/paths.rs`, `src/link.rs`: the
  document types and their views, the errors, the path layout and item
  references.
- `src/ops/`: the operations, one module per kind of item, plus the index
  (`index.rs`), the reviewed-work gate (`gate.rs`), links and backlinks
  between documents (`links.rs`), the backlog report (`backlog.rs`) and
  duplicate grouping (`duplicates.rs`).
- `src/clock.rs`: the three calls that read the system clock.
- `app/`: what the library leaves to its caller: the JSON form of problem
  details, paths on disk, fresh id suffixes and the clock for runs.
- `tests/`: the test suites.

## What the library leaves out

- Frontmatter text is neither parsed nor rendered here: the store holds
  documents already parsed, and a file that does not hold the expected kind
  of document reads as a parse failure.
- Full-text search is not part of the library. Duplicate grouping takes,
  for each task, the slugs that the search for its title found close
  enough, and groups the tasks from those matches.
- Extracting links from document bodies is not part of the library, so
  there is no dangling-link check; link targets are resolved from item
  references.
- A change in the source repository (`change/<head>`, or
  `change/<base>..<head>`) can be named as an item, but it has no document:
  resolving it gives a broken link, and asking for its file or its body is
  refused with `ChangeTargetHasNoDocument`. Reviews target roadmaps, phases
  and tasks, and the reviewed-work gate takes the approving reviews of a
  plan from its caller.

## Behaviour worth knowing

- The top-level `INDEX.md` links each project's own `INDEX.md`; a
  project's tasks, in priority order, are listed in the project's index.
- Splitting a roadmap loads every phase it moves or renumbers before it
  writes anything, so a phase that does not load leaves the store as it
  was, and no phase is read back after the same split rewrote its file.
- Merging tasks checks that every task exists before writing, but a source
  that does not parse stops the merge after the sources before it were
  closed.
