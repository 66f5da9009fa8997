# clean_my_shit

The verified core of a disk-clutter cleaner. It decides which locations may be
wiped, what each cleanable category resolves to, how scans are summarised and
how a cleanup proceeds; a small front-end does the filesystem work it asks for
and draws the window.

- `src/` — the library, with its contracts proved by Verus:
  - `paths` — path components and joins (parsed by `std::path`),
  - `places` — the user's directories as the `dirs` crate reports them,
  - `safety` — the guard: only absolute, `..`-free paths that are the recycle
    bin, a temp directory or something beneath one, or something strictly
    inside the home directory may be wiped,
  - `categories` — the per-platform category tables and the developer-junk
    hunts,
  - `scanner` — target search (contents of roots, or directory hunts), sizes
    and the largest-first scan summary,
  - `cleaner` — cleanup steps, recursive purges that never follow symlinks,
    and running totals,
  - `session` — the rows, selection and phases of one run.
- `tests/` — tests of the library on concrete values.
- `app/` — the egui window, the worker threads and the filesystem drivers.
