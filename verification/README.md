# guploadsync

A background daemon that keeps chosen files and folders in step with a sandboxed
remote folder. The rules it works by are a verified library; the program around
it does the input and output.

## Layout

- `src/` is the library, verified by Verus. It reads no file and makes no
  network call: it takes plain values, and says what is to be done.
  - `config` maps local paths to remote ones and back by the watch entries;
    `mapping_laws` says when a path comes back from the other side.
  - `local_watcher` holds changes back until a path has been quiet for two
    seconds. `remote_poller` turns what a poll found into events.
  - `sync_engine` decides what is done about each event. `model` says how its
    work goes on with each reply, and `laws` what always holds: unchanged files
    are not transferred, renames are found by content, echoes are ignored,
    conflicts keep both versions, and deletes go to the trash. `runs`,
    `full_sync` and `settled` speak of the work from its first request to its
    last: what a remote delete comes to, what a full synchronization visits, and
    that a second one, with nothing changed, leaves the remote store alone.
    `repeats` says the same of a second event for one file, and that the delete
    of a file that is back is cancelled.
  - `state_db` writes the statements for the SQLite state database and reads its
    rows.
  - `remote` holds two stores: one in a local folder (`fs_remote`, with
    `fs_laws`) and one in Google Drive (`google_drive`). The machines of the
    latter are joined in `work`, so that only what is done outside is asked;
    `uploads` says what an upload comes to as a whole.
  - `path`, `virtual_path`, `text`, `encoding`, `keyed` and `path_map` are the
    ground that the rest stands on.
- `app/` is the daemon: arguments, logging, the event bus, the file watcher, the
  database, and the two stores' input and output.
- `tests/` runs the library, with the outside crates linked.

## Trusted parts

A few calls go out of the library. What the library relies on is stated where
each call is made: the MD5 digest and RFC 3339 times in `hash_utils`, version 5
identifiers in `remote::fs_remote`, and the standard library's decoding of UTF-8
and `String::push` in `text`.

## Configuration

`~/.config/guploadsync/config.toml`, written on the first start:

```toml
remote_target_folder = "guploadsync"
poll_interval_seconds = 30

# [[watch]]
# local_path = "/home/username/.bashrc"
# remote_name = "dotfiles/bashrc"
```

The daemon syncs into
`~/.local/share/guploadsync/remote_sandbox/<remote_target_folder>` and keeps its
state in `~/.config/guploadsync/state.db`. `--sync-now` runs a full sync after the
start, and `--once` runs one and exits.
