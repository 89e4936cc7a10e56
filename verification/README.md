# hajizip

Browse and extract archives: ZIP, TAR (plain, gzip, xz), 7z and RAR, also archives inside archives.

- `src/` is the library, verified with Verus.
  - `model`, `text`, `file_path`, `timestamp`, `error`: entry paths, metadata, paths on disk, calendar
    times, errors.
  - `encoding`: file names in legacy codepages.
  - `source`, `codec`, `format`, `registry`: where bytes come from and which format reads them.
  - `archive`: the formats, the tree of an archive, nested archives.
  - `navigate`, `walk`, `extract`: moving through archives, listing them recursively, extracting them.
  - `controller`, `events`, `config`, `viewmodel`, `view`, `icons`: what the desktop program decides
    and shows.
- `app/` is the desktop program: files, dialogs and the window. It performs what the library asks
  for. Add dioxus' `desktop` feature to `Cargo.toml` to run it in a window.
- `tests/` drives the library over archives built in memory.

Extraction and the controller are state machines. Each call takes the outcome of the last action and
returns the next one, so that everything that is decided is verified, and only the actions
themselves (reading a file, creating a directory, asking the user) lie outside.

The contracts of the archive formats rest on trusted wrappers around `zip`, `tar`, `sevenz-rust2`,
`rars`, `flate2`, `lzma-rust2`, `encoding_rs`, `chardetng` and `time`; each says in its doc comment
what it takes from its crate.
