# configwatch

A configuration watcher: configuration values read from JSON and TOML files
and from prefixed environment variables, merged into one map that is kept up
to date while the sources change.

The library (`src/`) is written in Verus and verified:

- `value` — configuration values (`ConfigValue`), their mathematical content
  (`Content`), and `ConfigMap`, a string-keyed map with distinct keys; equality
  compares contents (tables by keys, floats as IEEE 754 numbers).
- `text` — prefix tests, ASCII case-insensitive comparison, and a decimal
  `i64` reader that accepts exactly what `str::parse::<i64>` accepts.
- `sources::env` — which environment variables a prefix and separator select,
  the configuration key each gives, and how a value is read.
- `sources::file` — the format of a file told by its extension, the JSON and
  TOML parsers (`serde_json`, `toml`) behind trusted wrappers, and the
  configuration that a parsed document gives.
- `watcher` — polling a file by modification time and content hash.
- `state` — the watcher's configuration: initial load, refresh, and changes,
  with the law that a key holds the value of the last source to give it.

`app/` holds the running side: file and environment reads, the polling
thread, locks and subscriber channels.
