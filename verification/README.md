# reed

Building blocks for matrix-free finite-element operators: element restrictions, bases on tensor
cells, simplices, prisms and pyramids, vector-valued bases, quadrature rules, q-function contexts,
composite operators and fast diagonalisation inverses. Every function of the library carries a
contract that Verus proves, except one that is trusted: `quote`, which shows a name in an error
message through the formatting of the standard library.

- `src/` is the library. Numbers are values of the traits `Real` and `Scalar`; a contract says which
  operations produce a result, and the modules named `*_laws`, `*_reproduction` and `*_adjoint`
  prove what follows where those operations obey the axioms of a field.
- `tests/` runs the library with double-precision numbers.
- `app/` holds what lives outside of verification: the numbers of the machine, errors that print,
  contexts with floating-point fields, and batches over threads.
