# moreutils

The moreutils tools (`chronic`, `combine`, `errno`, `ifdata`, `ifne`,
`isutf8`, `lckdo`, `mispipe`, `parallel`, `pee`, `sponge`, `ts`, `vidir`,
`vipe`, `zrun`) with their logic verified by Verus.

- `src/` is the verified library: argument parsing, the decisions each tool
  makes, the text it writes, and the parsing and formatting of the data it
  reads (UTF-8, timestamps, `/proc/net/dev`, edited `vidir` listings, ...).
  Every function has a contract over spec functions on sequences and
  integers; `chrono` and `regex` are called from it through a few trusted
  wrappers whose contracts name or state what those crates return.
- `app/` is a thin program around the library: it reads files and standard
  input, spawns processes, takes locks, asks the kernel about interfaces and
  hands the results to the library. It picks the tool by the name it is
  called by, or by its first argument.
- `tests/` runs the library on concrete values.
