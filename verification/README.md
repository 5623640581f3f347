# odm

The verified core of a desktop download manager (HTTP and BitTorrent).

- `src/` is the library, verified with Verus: the download state machine,
  the manager's decisions (queue, scheduling, pause/resume/cancel/retry,
  recovery after a restart), the bandwidth split, path and file-name rules,
  response-header interpretation, the transfer's byte accounting, the
  database row format and which schema migrations are pending, the naming
  of partial files, and the torrent backend's input recognition, file-list
  checks, the paths it checks for links, the order in which it removes a
  torrent's data, and its polling decisions.
- `app/` is the command-line program around it: the HTTP transport
  (`reqwest`), the filesystem, SQLite (`rusqlite`), the BitTorrent session
  (`librqbit`), the async runtime and the terminal progress bar. It carries
  out what the library decides.
- `tests/` exercises the library on concrete values.
