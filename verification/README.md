# gtfo_logger

The logic of a run logger and live splitter for GTFO, verified with Verus:
run statistics, sorting and comparison of runs, the live splitters and run
counter, the mapper and foresight (seed indexer) views, code and key
guessing, and the settings with their defaults.

- `src/` is the verified library. Each module states its model in spec
  functions; the public functions carry `requires`/`ensures` over it (each
  doc comment says where a result is left open), and the laws that relate
  several functions are public proof functions. The splitters show at most
  as many splits as the settings `run_splitter_length` and
  `game_splitter_length` allow, dropping the oldest.
- `tests/` runs the library on concrete values.
- `app/` is a small command-line front end: it reads and writes runs,
  settings and level views (serde, serde_json, serde_yaml, ron), drives the
  statistics, sorting, log parser list and the splitters over saved runs,
  and hands plain values to the library.

Outside crates called from `src/`, each behind a trusted item whose
contract is stated next to it: `indexmap` (the seed indexer's listing) and
`itertools` (the order of the per-level statistics); `str::to_uppercase`
from std.
