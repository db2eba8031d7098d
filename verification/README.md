# rxtt

An X11 activity tracker: it records which window had the focus, and when
the user was idle, as intervals in SQLite, and prints usage reports and
workflow timelines from them.

## Layout

- `src/` — the library, verified with Verus. It holds the decisions and
  the text the program produces:
  - `tracker`: when an interval ends and the next begins, and the
    rate limit on title-change reports;
  - `storage`: the intervals waiting for their finish, the rows a finished
    interval becomes, and the schema versions a database may have;
  - `consistency`: proofs that the store accepts what the tracker sends;
  - `terminal`: proof that outside text reaches the terminal escaped;
  - `unlogged`, `report`, `workflow`, `json`: unlogged periods, usage
    totals with grouped titles, the timeline and its JSON export;
  - `titles`, `unicode`, `order`: title normalization and its trace;
  - `text`, `style`, `time`, `output`: durations, escaping, ANSI styles,
    local-time labels and console lines;
  - `model`, `x11`, `paths`, `cli`, `dispatcher`: windows and events,
    X11 property decoding, default paths and command-line settings.
- `app/` — the program around the library: argument parsing, the
  configuration file, X11, SQLite, signals and the worker thread.
- `tests/` — tests of the library.
