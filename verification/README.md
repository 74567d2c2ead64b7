# honeypot

A TCP honeypot for Debian and Ubuntu. It counts the visits of each source
address inside a sliding window, bans a source through the firewall once it has
come too often, keeps the bans across restarts, and can be administrated over
HTTP. The list of banned sources can be uploaded by WebDAV.

## Layout

- `src/` is the library: every decision of the service, written in Verus and
  proved against the contracts of its functions.
  - `text`, `addr`, `time`: characters, addresses and spans of time.
  - `allowlist`: addresses and ranges that are never banned.
  - `tracker`: visits inside the window.
  - `store`: ban records, the snapshot and the journal.
  - `ban`: the order in which files, firewall and memory change.
  - `filter`: which texts are filters of the log.
  - `config`: the configuration and its rules.
  - `firewall`: the commands of each backend, and the order in which they are run.
  - `calls`: the commands that a runner was given, and its answers.
  - `admin`, `inline_admin`: who is let in, and what is answered.
  - `honeypot`: connections, the listener and the queue of bans.
  - `logging`: which log files are kept.
  - `webdav`: what is uploaded, and when.
  - `supervise`: why the service stops, and what it reports.
- `app/` is the program around it: files, sockets, processes, JSON and TOML.
- `tests/` holds the tests of the library.

What takes several steps outside, such as a ban or a connection, is a state
machine in `src/`: it names one action at a time, `app/` performs it and reports
how it went.

## Laws

Beside the contracts the library states laws, as public proof functions whose
names begin with `law_`. Among them: memory, files and firewall stay coherent
whatever step fails, and a restart at any point recovers; a source that was not
forgotten for want of room is banned exactly when enough of its visits lie
inside the window; the firewall gets the commands that are planned, in their
order; no more connections are served at a time than the limit allows; only the
configured password opens the administration.
