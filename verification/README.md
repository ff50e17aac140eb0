# termina

Termina keeps a list of shell commands, starts and stops them as process
groups, captures their output, watches their health and exits, and answers a
small command line client over a local socket.

The decisions are made in `src/`, a library verified with Verus:

- `state` — the application state (commands, tracked process groups, exit
  records, log buffers, health), starting, stopping, restarting, deleting,
  the process monitor's round, health check planning and auto start.
- `protocol` — the socket requests and what each one does to the state.
- `cli` — the client's requests and the text it prints.
- `config` — the configuration and pid files' contents, and their paths.
- `ports`, `process`, `tray` — port specifications, orphan detection, URL
  checks and menu entries.
- `types`, `table`, `text`, `ids` — the data types, a keyed table, string
  helpers and command ids.

`app/` holds the program around it: the desktop window and tray, the threads
that poll processes and fetch health URLs, file and socket I/O, and the
command line client's argument parsing.
