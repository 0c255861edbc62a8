# waywallen (verified core)

The decision-making core of the waywallen wallpaper daemon, written in Verus
and proved against its contracts.

- `src/` — the verified library: setting schemas (`control_proto`), wallpaper
  ordering and selection (`wallpaper::sort`), library-relative paths
  (`queue`), the self-test command line, UUID text, child spawning and
  orchestrator decisions (`self_test`), the frame reaper's release-fence
  bookkeeping (`sync::reaper`), the tray's re-registration rule (`tray`) and
  the database URL (`model`). Shared text helpers live in `text`.
- `app/` — the I/O around it: processes and Unix sockets of the self test,
  D-Bus registration of the tray, the reaper's event loop over the DRM
  device, TOML and serde conversions.
- `tests/` — executable tests of the library.

The SQLite connection and its schema migrations are not part of this crate:
`model::sqlite_url` builds the URL and `app/model.rs` prepares the file's
directory, and opening the connection is left to the daemon.
