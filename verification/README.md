# spindle

The decisions of a music library manager, each with a contract that is proved:
what a scan changes in the catalogue, how edits are planned, carried out, undone
and taken back, how files come from the inbox and from video platforms into the
library, and what can be collected.

- `src/` is the library. It works on plain values: what a file looks like, what a
  row of the catalogue holds, how a step on disk ended.
- `src/edit/` holds batches of edits: tags, pictures, digests, renames in two
  phases, and normalisation to FLAC with an archive of the sources.
- `src/import/` holds the scanner, the inbox, placing files, and downloads.
- `src/gc.rs` holds the collection of what nothing refers to.
- `tests/` runs the library on concrete values.
- `app/` touches the world: files below their roots, JSON, external programs and
  queries. It runs scans, records batches of tag edits, renames and normalisations,
  carries out operations on tags, digests and paths, replaces the files of
  normalisations, closes what is not carried out, notes, places, registers and
  discards items of the inbox, downloads, and plans and carries out collections, each
  step as the library decides it. The statements of the catalogue and the formats of
  audio files that it needs stand behind traits of its own.
