# opti-set-int

Sets of 16-bit integers in many representations, and the benchmark that
compares them. Every representation implements the `SetInt` trait, whose
contracts state each operation over the mathematical set the value holds;
Verus proves each implementation against them.

- `src/set_int.rs`: the trait, the byte encoding (one bit per integer), and
  the laws of the operations.
- `src/types/`: the representations: bitmaps, a bit trie, search trees,
  sorted vectors, interval lists, and wrappers of the sets of outside crates
  (`roaring`, `croaring`, `bit-set`, `fixedbitset`, `bitvec`, `rustc-hash`,
  `avl`, `rbtree`, `range-set-blaze`, `idlset`, `rust_intervals`).
- `src/scenario.rs`: the measured scenarios, built from a seed.
- `src/run.rs`: settings, scenario selection, and the plan of a benchmark.
- `src/timer.rs`: the stopwatch over a cycle counter.
- `app/main.rs`: the command line program, which reads the counter and
  writes `output.csv`.
