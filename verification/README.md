# ktools

Two small libraries, written in Verus and proved against their contracts:

- `kcli`: command-line parsing for a program's own options plus "inline" option groups
  that share a root (`--build`, `--build-profile x`, `--build-clean`). A whole command line
  is checked before any handler runs; aliases, optional and required values, positional
  arguments and generated help listings are supported.
- `ktrace`: namespaced trace channels. Trace loggers declare channels (up to three levels,
  each with an optional terminal color); a `Logger` registers them and turns them on and off
  by name or by selector lists such as `*.*`, `.net.*` or `alpha.{net,cache}`; trace and log
  calls give back the formatted line to print.

Layout:

- `src/text.rs`: string and character helpers shared by both libraries.
- `src/kcli/`: the parser (`parser.rs`), its tables and errors (`model.rs`), option-name
  normalization, the parsing pipeline (`process/`), the laws (`laws.rs`) and the demo option
  groups (`demo/`).
- `src/ktrace/`: selectors, colors, line formatting, the logger registry, the `--trace`
  option group (`cli.rs`), the laws (`laws.rs`) and the demo trace loggers (`demo/`).
- `app/`: what a program adds around the libraries: printing, exit codes, the call site of a
  trace call, a shared logger handle, and the demo programs.
- `tests/`: scenarios for both libraries.
