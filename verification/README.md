# pulsar

Decision core of a streaming mixture-of-experts inference engine, written in
Verus. Models that do not fit on a card are run by keeping the hot experts on
cards and in memory and reading the rest from disk; this crate decides what
lies where, what is read when, and what is launched in which order.

## Layout

- `src/` is the library. Every function in it has a contract that Verus proves,
  except `stats::seconds` and `shape::quoted`, which have std write a duration
  and a quoted string as text.
  - Reading a model: `header`, `shards`, `shape`, `geom`, `tensors`, `requant`,
    `loading`, `layer_plan`.
  - Placing it: `placement`, `capacity`, `kv`, `scratch`, `tiers`.
  - Experts: `bank`, `store`, `ensure`, `dev_cache`, `prefetch`, `resolve`,
    `lanes`, `census`, `hotlist`.
  - Running it: `attn`, `parts`, `graph`, `hybrid`, `hybrid_graph`,
    `eval_bank`, `forward`, `generate`, `decode`, `floats`, `ckpt`, `prefix`.
  - Drafts: `dflash`, `draft_graph`, `block_run`.
  - The program: `args`, `session`, `checks`, `stats`, `utf8`, `text`, `words`,
    `bytes`, `sort`.
- `tests/` runs the library on concrete values.
- `app/` is the program around it: files, threads, cards and kernels.

## Conventions

Reals are held as the bits of 32-bit floats; the library compares and moves
them, and arithmetic on them is in `app/`. Launches are values: `graph`,
`hybrid_graph` and `draft_graph` list them in order, their contracts say
exactly which, and their laws say that nothing is read before it is written.
`app/` runs the lists on the kernels.

Public proof functions state what holds across functions: what is written is
read back, what is kept apart does not overlap, what speculation must not
change.
