# asset_resolver

Resolves World of Warcraft FileDataIDs to asset paths and back, and reads
files from a local WoW installation through CASC.

The rules are a Verus library under `src/`, each function with a contract
that Verus proves:

- `listfile` — the in-memory indexes between FileDataIDs and paths, and the
  lookup order over memory, the local SQLite cache and the community
  listfile, as a step function: each step takes the storage's reply and says
  what to ask next, what to report and what to persist.
- `paths` — how the source, shared-data and cache roots are settled from the
  configuration, the environment and the defaults, and the paths under them.
- `casc_cache` — the FileDataID → content key → encoding key tables built
  from the root and encoding files, the rows of the resolution cache, and
  when a cache on disk is fresh.
- `casc_resolver` — where an installation is looked for, the BLTE offset in
  local archive bytes, the marker of a failed extraction, and set-up that is
  tried once.
- `casc_local` — the extraction command line: arguments, file names, tally.
- `tvfs_cache` — which TVFS manifest entries resolve a FileDataID.
- `text` — the string rules these share (path joining, ASCII lowercasing,
  decimal numbers).

`app/` is the process side: the environment, the file system, SQLite, the
CASC storage and the two command-line programs. It runs the library's step
functions against the real stores.
