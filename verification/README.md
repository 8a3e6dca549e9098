# strategy_optimizer

Building blocks of a genetic optimizer for trading strategies, verified with
Verus: every function of the library states its result in a contract, and
the properties that span several functions stand as proof functions named
`law_*`.

- `src/` is the library. Floating-point quantities are carried as integers:
  probabilities and rates in millionths, parameter bounds and condition
  constants in thousandths, a fitness as an order key, a fitness history by
  bit patterns. Random choices
  come from `rand`, behind a few wrappers in `src/random.rs` whose contracts
  state what holds of every outcome.
- `app/` holds what stays outside the proofs: the JSON configuration file,
  the conversion of floats to and from the library's integers, the
  stagnation judgement on fitness values, and printing.
- `tests/` runs the library on concrete values.
