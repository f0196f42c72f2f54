# loom

Thread-based composition patterns, verified with Verus: warp threads
(longitudinal), weft threads (cross-threads), sheds (upper/lower split of
threads), heddles and harnesses (pattern control) and tapestries (the woven
grid).

- `src/` is the verified library, one module per structure (`warp`, `weft`,
  `shed`, `heddle`, `tapestry`), plus `metadata` (string-to-string maps kept
  as entry lists with distinct keys) and `measure` (sums, minima and maxima of
  lengths). Every public function carries a contract over `Seq`/`Map` views;
  the laws that relate several functions are public proof functions beside
  them.
- `app/` holds the floating-point quantities that the library does not:
  thread tension, shed opening, and the ratios (`average_tension`, `ratio`,
  `density`, `fill_ratio`) computed from the library's counts.
- `tests/` runs the library on concrete values.
