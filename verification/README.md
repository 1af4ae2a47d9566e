# rewatch

A file-watching process supervisor: it runs a command, kills it when
watched files change, and restarts it when Enter is pressed or a trigger
file is touched. A configuration file (`rewatch.toml`) is merged with the
command line and reloaded when it changes.

- `src/` is the verified library: configuration merging (`config`), path
  handling (`paths`), lists of changed files keyed by path (`changes`),
  event filtering and draining (`watcher`), the child
  process life cycle (`process`) and the supervise loop's decisions
  (`supervisor`), with character-level helpers in `text`.
- `app/` is the program around it: argument parsing, reading the
  configuration file, the file-system watcher, process spawning, stdin,
  Ctrl+C and printing.
- `tests/` exercises the library on concrete values.
