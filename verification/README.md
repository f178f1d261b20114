# pitchfork

Pitchfork runs daemons for developers: a supervisor starts and watches them, a command line and a
web interface show them and their logs. This crate holds the rules of that program, written in
Verus: what a command shows, what is asked of the log database, when a daemon is stopped,
restarted or pruned. Each function states in its contract what it returns, and Verus proves it.

## Layout

- `src/text.rs`, `src/order.rs`, `src/collect.rs`: texts, their order, sets and maps of them.
- `src/daemon_id.rs`, `src/daemon_status.rs`: daemons and their states.
- `src/error.rs`, `src/diagnostic.rs`: errors, their messages and the advice on them.
- `src/clock.rs`: moments, spans and the local clock.
- `src/regexp.rs`, `src/terminal.rs`: regular expressions, and texts on a terminal.
- `src/log_store/`: log entries: queries, retention, archiving, the table that holds them, and the
  import of text logs.
- `src/supervisor/`: file watching, resource limits, schedules and log retention.
- `src/cli/`: the commands `daemons`, `list`, `logs`, `namespace`, `proxy` and `settings`.
- `src/web/`: log streams and the counts of daemons.
- `src/settings.rs`: the settings by name.
- `app/`: what talks to the world: SQLite, processes, terminals, files and the network.

Calls into other crates stand behind functions marked `external_body`, each with a comment that
says what is taken for granted of the call. Facts about the library as a whole, such as that a
count rotation keeps the newest entries or that no wish for a file watch is dropped, are public
proof functions next to the code that they are about.
