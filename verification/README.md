# dimcheck

A type checker for a small calculator language with physical units. The type of an expression is its
physical dimension: a product of powers of base dimensions, with rational exponents.

- `arithmetic`: rational numbers in lowest terms; every operation says when it is out of range.
- `registry`, `dimension`: dimensions, and the table of those that have been declared.
- `ast`, `typed_ast`: programs before and after the check.
- `typechecker`: the checker.
- `ratio`, `dim`, `rules`: the mathematics that the contracts speak of: fractions, the algebra of
  dimensions, and the typing rules.
- `laws`: what holds of the checker as a whole.

Functions whose name begins with `try_` take every input. Their counterparts without it ask for an
input that has a meaning:

- no exponent, and no step on the way to it, is out of range;
- no exponent divides by zero;
- every number in an exponent that is evaluated has a rational value;
- each parameter of a function is annotated with a dimension that is known.

`app/` makes the numbers of a program from floating-point values and turns errors into messages.
