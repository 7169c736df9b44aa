# fasteval

The structural side of a math-expression evaluator, verified with Verus.

Expressions are stored in slabs: a parse slab of expressions and values and a
compile slab of instructions, each entry referring to other entries by index.
The library states and proves:

- how the binary operators of an expression group, by precedence and
  associativity, into one tree (`precedence`), and that this grouping is the
  only one that respects the precedence levels;
- which variable and custom-function names an expression, value, function
  call, `print()` call or instruction uses, untaken `if` branches included,
  each name once and in increasing order (`names`), and that adding a node's
  names to a list a second time leaves the list as it was;
- when a slab is well formed: every reference points to an earlier entry, or
  past the end to the default entry (`slab`);
- how the line of a `print()` call is assembled from its arguments and which
  argument gives its value (`print`).

Layout:

- `src/` is the verified library.
- `tests/` runs it on concrete expressions.
- `app/` evaluates expressions to `f64` on top of the library: floating-point
  arithmetic, the namespace traits and printing, which stay outside the
  verified part.
