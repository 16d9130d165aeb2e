# nvage

The backend of nvAge, a local-first notes app: plain Markdown notes with a
small front matter block (a UUID and a creation time), a search index, and
encrypted sync of notes to a Git remote with `age`.

- `src/` is the library, verified with Verus: front matter writing and
  reading, titles, previews and file names, ordering by recency, the search
  plan and result fields, the sync decisions (which notes to push, which
  remote files are stale, what a pull decrypts and where conflict copies go),
  and the reports shown to the interface. Calls into `age`, `chrono`, `uuid`
  and `slug` go through small trusted wrappers whose contracts say what those
  crates document.
- `app/` is the unverified rest: the configuration file, SQLite, the file
  watcher, running `git`, key files and the commands the interface calls.
- `tests/` runs the library with the real outside crates.
