# strace_converter

Converts strace logs (`strace -yy --decode-pids=all --always-show-pid -T -tttN -s 100 -f -qqq`)
into Trace Event Format events and into graph nodes and edges, with the logic verified by Verus.

- `src/text.rs`: characters of a string, Unicode whitespace, searching, decimal numbers.
- `src/pattern.rs`: regular expressions compiled and matched by the `regex` crate (trusted boundary).
- `src/arg_map.rs`: argument names mapped to values.
- `src/syscall_parser.rs`: one log line into a `SystemCall` record.
- `src/tef_converter.rs`: merging unfinished calls with their continuations; Trace Event Format events.
- `src/graph_generator.rs`: process, file and socket nodes and the edges between them.
- `src/output_format.rs`: the output format named on the command line, the files it writes and their first lines.
- `app/`: the command line program: reading the log, writing JSON, TEF and CSV files.
- `tests/`: tests of the library on concrete log lines.
