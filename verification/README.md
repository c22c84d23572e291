# Eksplora

The core of a search-oriented file manager, written in Verus: every function
under `src/` is proved against its contract.

- Paths: `paths` (grammar), `file_path` (values), `path_laws`.
- Index: `types`, `index_model`, `index_laws`, `indexer`, `cache_laws`,
  `counts`, `live_counts`, `saving`.
- Search and listing: `query`, `query_laws`, `tree`, `tree_laws`, `sort`,
  `fuzzy`, `parallel`, `cancel`.
- Scanning: `scanner`, `walk`, `shallow`, `scan_laws`.
- File operations: `fs_ops`, `copy_laws`, `recycle`.
- System: `usn`, `usn_laws`, `windows_integration`, `watcher`, `complete`.
- The desktop app's and the command line's decisions: `session`.
- Building blocks: `text`, `bytes`.

The library does no I/O. What is on the disk or what the system answers comes
in as values; what comes out says what to do. `app/` reads, writes and asks:
the command line program and, on Windows, the desktop shell.

Eksplora is made for Windows: paths follow the Windows grammar, wherever it is
built, and two spellings of one path are the same path. A path is text; where a
file name is not, what cannot be read is replaced on the way in.

Trusted, because Verus does not see inside: `str::to_lowercase`,
`String::push` and `char::from_u32` of the standard library, the fuzzy score of
`nucleo-matcher`, and that `rayon` maps a vector in order. Each is stated where
it is declared.
