# oxide

`oxide` scans a directory tree of audio files, takes a Chromaprint / AcoustID fingerprint of
each, and stores it in the file's tags. Files that hold a fingerprint already are skipped, unless
`--all` is given.

    oxide [--all|-a] <DIRECTORY>

- `src/` is the library, verified with Verus: which files are worked on and in which order, how
  decoded audio becomes a fingerprint, how a fingerprint is found in tags and written to them, the
  steps of the work on one file, the counts of a run, and the command line.
- `app/` is the program around it: it reads directories and files, decodes audio with Symphonia
  or `ffmpeg`, and carries out the steps that the library asks for.
- `tests/` holds the library's tests.

What is taken on trust of the outside crates stands in `src/chroma.rs` (the fingerprinter) and
`src/tags.rs` (tags and tagged files), each item with what it claims of the function behind it.
