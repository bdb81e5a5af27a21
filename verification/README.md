# mobile_perf

A performance agent for mobile devices, with a library whose decisions and arithmetic are
verified by Verus.

- `src/` is the library. It reads the text files of the kernel, summarises the samples of
  benchmarks, detects regressions and trends, keeps the schedule of the agent, and judges
  stress tests and checks of the operating system. It does no input or output.
- `app/` is the program around it: processes, files, sockets, threads, JSON and charts.
- `tests/` holds the tests of the library.

## Numbers

The library has no floating point. A measured quantity is an integer in thousandths of its
unit: a load of 42.5 % is `42_500`, and a temperature of 36.6 °C is `36_600`. Comparisons of
quotients and roots are exact, because both sides are multiplied out. A quotient or a root
that is reported is rounded down.

## Chance

Random draws come from the crate `rand`, through three functions of the module `random`
whose contracts state what holds of every draw. Where something is computed from a draw, the
computation is a function of its own that takes the drawn values as arguments. A function
that only hands a draw on, such as a reading of a sensor that is missing, has none beside it.
