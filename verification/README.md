# bitloops code archiver

At the end of every agent turn, the archiver saves each created or modified
file of the repository as a JSON record `{"code": ..., "model": ...}` named
`{secs}-{micros:06}__{file_name}.json`, unless the newest archived copy of
that file already holds the same content.

- `src/` is the verified library (Verus):
  - `text`: Unicode white space, trimming, decimal formatting and parsing;
  - `stamp`: archive names, reading their timestamps back, the newest copy;
  - `clock`: the system clock as seconds and microseconds;
  - `record`: the JSON record, written and read with serde_json;
  - `paths`: file name, parent and joining of paths, as `std::path` does
    them, and the archive's root directory;
  - `settings`: decisions taken from environment settings;
  - `plan`: which changed files of a turn are archived, and where;
  - `machine`: archiving one file, as a state machine, with its laws.
- `app/` performs what the library asks for: it reads the environment,
  lists, reads, creates and writes files, and traces what happened.
- `tests/` runs the library, partly against an in-memory file system.
