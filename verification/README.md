# clojure_core

The core of a Clojure runtime hosted on Python, as a Verus library with its
contracts proved, and a thin Python extension module around it.

- `src/` — the verified library: Murmur3 collection hashing; the reader
  (source positions, lexing, numbers, strings, characters, tokens and
  keywords, collection literals and reader macros, syntax-quote, anonymous
  `#(...)` functions, error messages); the printer; built-in macro
  expansion, special-form helpers, the evaluation environment, and the
  reading side of file loading (a source's forms one after another, the
  first form of a file, a namespace's file path); keywords; namespace creation plans; multimethod dispatch tables;
  the per-type protocol cache; scalar equality and hashing rules; future and
  promise states; regex matcher groups; the association map used for
  dynamic bindings; the runtime's integer primitives (exact arithmetic,
  `quot`/`rem`/`divide`, shifts and bit operations, 32-bit wrapping
  arithmetic) and string primitives; and the decision a protocol function
  call makes between fixed-arity, variadic and host-protocol dispatch.
- `tests/` — tests on concrete values, including the laws the library
  proves (print/read round trips, dispatch and cache behaviour).
- `app/` — the `clojure._core` Python module (pyo3): converting between
  host values and the library's forms, the Python classes, and the work
  that needs the interpreter, the file system or threads (among it the
  load loop that evaluates each form read), and the `clojure.lang.RT`
  namespace, whose primitives hand 64-bit integers and strings to the
  library and leave floats and larger integers to the host.
