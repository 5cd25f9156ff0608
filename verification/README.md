# which

A library for locating executables along a search path, verified with Verus,
and the `which` command line tool built on it.

- `src/search.rs`: the search (`which_all_fs`, `which_fs`), specified by
  `which_spec`; directory filtering, path joining, output formatting.
- `src/filesystem.rs`: the `FileSystem` interface and its models: an in-memory
  `VirtualFileSystem`, a `NativeFileSystem` that holds the answers the host gave
  for the paths a search asks about, and the empty `WasmFileSystem`; the
  Windows extension list (`executable_extensions`) and the Unix execute bits
  (`mode_is_executable`).
- `src/options.rs`: the named switches of a search and the platform's search
  path separator and executable extensions.
- `src/pattern.rs`: command patterns compiled by the `regex` crate.
- `src/report.rs`: durations, version lines, result records, text output,
  XML layout and the exit status for the tool.
- `src/laws.rs`: properties of every search, proved.
- `app/main.rs`: the command line tool; it asks the host about the paths a
  search needs, then runs the search on those answers.
