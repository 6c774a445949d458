# kontract

An algebra of financial contracts (zero, one, give, and, or, scale, when,
anytime, until) with its static analysis and the cash-flow reduction of its
Monte-Carlo engine.

- `src/` is the verified library: the contract language and its models, the
  plan of a contract (underlyings, acquisition dates merged within 1e-12,
  horizon, barrier monitoring), the reduction of a contract into cash flows along a path, market
  paths, named products, seeds, level costs, the digit expansion of Halton
  points and the record structure of quote files. Reals travel as the bit
  patterns of binary64 numbers and are never computed with.
- `app/` is the numerical engine around it: evaluation of observables,
  simulators, pricers, variance reduction, PDE solvers, calibration, Greeks,
  backtests, JSON and error display. It computes in binary64.
- `tests/` runs the library on concrete values.
