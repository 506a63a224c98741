# downup

A network speed test: a client uploads to, or downloads from, a server for a
fixed time over TCP or UDP and prints the speed as it goes.

- `src/` is the verified library (Verus): the one-byte command protocol, the
  stream operations over a connection (`write_all`, `read`, `command`), the
  bookkeeping of timed uploads and downloads (countdown, round size that
  follows the socket's buffer), the server's rounds, the file sender, the
  reading of the configured durations, and number and size formatting.
- `app/` is the program around it: sockets, clocks, threads, terminal output
  and the TOML configuration. Run `downup client [config.toml]`,
  `downup server [config.toml]` or `downup upload-file`.
- `tests/` runs the library against in-memory connections.
