# fixed_math

Deterministic fixed-point mathematics: signed Q-format numbers, a
generalized continued-fraction evaluator (backward recurrence and the
modified Lentz method), and the exponential and natural logarithm built
on Lambert's and the inverse hyperbolic tangent continued fractions.

Every function of the library carries a contract proved with Verus:

- `number/` — the rounding modes (`rounding.rs`), binary formats
  (`format.rs`), the fixed-point value and its checked, saturating,
  wrapping and scaled arithmetic (`fixed.rs`), and constants such as
  `ln 2` (`constant.rs`);
- `cf/` — coefficients and the provider trait, the Lambert and atanh
  providers, and the evaluator, whose result is specified step by step
  for both algorithms;
- `function/` — the shared configuration, `Exp` and `Ln`;
- `traits/` — `Evaluate` and `Function`.

The laws of the library (how each rounding mode rounds, exact
round trips of encoding and rescaling, identities of the scaled
arithmetic, rejection of empty fractions and of the logarithm's domain,
the normalization `x = m·2^k` with `1 <= m < 2`) are public proof
functions or postconditions next to the code they are about.

`app/` holds what the verified library cannot carry itself: `Display`,
`std::error::Error`, the compound-assignment operators and a conversion
to floating point for showing values.
