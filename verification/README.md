# velt

Underwriting for real-estate investment analysis, written in Verus: every
function of the library carries a contract that the verifier proves.

## Layout

```
src/            the verified library
  money.rs        integer minor-unit money, basis-point rates, the one
                  rounding primitive (half away from zero), text forms
  amort.rs        i128 fixed-point amortization, rounded exactly once
  provenance.rs   Traced<T>: every number carries its derivation tree
  engine.rs       the pure underwriting engine and its laws
  connector.rs    the fair-housing boundary for external data
  api.rs          what the daemon answers: health, operator inputs, underwrite
  text.rs         lexicographic order, substring search, decimal numerals
tests/          the tests, run against the compiled library
app/            the loopback HTTP daemon (axum), the JSON/OpenAPI forms of the
                library's types, and the SQLite snapshot store
```

## What is proved

Each public function states its full outcome over spec functions: the
engine's figures are `underwrite_figures(inputs)`, and every figure's trace is
a derived node over exactly the traces it was computed from. Laws stated and
proved as proof functions include the accounting identities, determinism of
the engine (same figures, same provenance trees), that no computed figure is a
bare leaf, which external sources NOI and the cap rate rest on, that the cap
rate never rises with the price, that vacancy never raises income, that a
higher rate never lowers the monthly payment (for terms up to a million
months), that rounding is to the nearest unit with ties away from zero, and that a record
reads back what was written into it.

The one call into code outside the library that the proofs rest on is
`str::to_lowercase`, whose result is named but not described; `Arc::clone` is
trusted to hand back the same tree.
