# mafis

Verified core of a lifelong multi-agent pickup-and-delivery simulator, written
in Verus. `src/` holds the logic with its contracts and laws:

- `grid` — grid cells, Manhattan distance, a duplicate-free cell set.
- `task` — task legs and zone maps.
- `schedulers` — the task-scheduler interface and its random, nearest-first,
  balanced and round-trip implementations; selection by name.
- `recycle` — goal recycling: how agents at their goal move on by one leg.
- `lifelong` — task-completion bookkeeping and per-tick throughput.
- `metrics` — throughput recovery and critical time of a faulted run.
- `lacam3` — replan decisions, goal deduplication and plan advance of the
  lifelong LaCAM3 wrapper.
- `cli`, `graphics` — the command tree and graphics settings.
- `watch` — watch mode: which file events are source changes, and the
  debounced decision to run cargo again.
- `rng` — the one call into the random-number generator.

`app/` is the command-line front end (argument parsing and the build, serve,
watch and clean commands). `tests/` exercises the library.
