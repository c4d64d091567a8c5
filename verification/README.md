# py_interop

The logic of a set of small Python extension modules, written in Verus and
proved against its contracts.

- `src/` is the verified library: Fibonacci numbers, primes and prime
  factors, the `k` largest of a list of big integers, validated records
  (shopping orders, people, accounts with a balance history, discount
  periods, rectangles), and the link handling and bookkeeping of a crawler
  that maps the pages of one web domain.
- `app/` holds the Python bindings (built with `pyo3`), the worker threads and
  asynchronous tasks of the crawlers, network requests, printing, and the
  parts that compute with floating-point numbers.
- `tests/` runs the library on concrete inputs.

Calls into `url`, `scraper`, `num-bigint`, `primes` and `chrono` are made
from the library through small functions whose contracts are assumed; each
names the outside function it calls and says what it assumes of it.
