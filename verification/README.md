# crc32tool

A parallel CRC32 hashing and verification tool. The library under `src/` is
verified with Verus; `app/main.rs` is the command-line program around it
(argument parsing, file and directory access, progress bars, threads,
printing and the timed benchmark).

Library modules:

- `crc`: streaming CRC32 over `crc32fast` and the eight-digit upper-case
  hexadecimal text of a checksum.
- `size`: size arguments such as `4GB` or `512m`.
- `manifest`: reading manifest lines (`<CRC32> <path>` or exported CSV rows).
- `export`: export records and their CSV / plain-text lines.
- `report`: judging checked files and counting outcomes.
- `inputs`: run mode, path arguments and extension filters.
- `display`: shortened file names, CPU identification, coloured markers.
- `bench`: the benchmark's size and hashing loop.
- `text`: character-level helpers (trimming, ASCII case).
