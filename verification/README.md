# sfbinpack

Reads and writes binpacks: chess training data, compressed. The library is written in Verus, so that
what its functions return is stated in their contracts and proved.

A binpack file is a sequence of chunks, each behind the magic `BINP` and its size. A chunk is a
sequence of chains. A chain is a stem of 34 bytes (position, move, score, ply with result, rule50
counter, draw score), the number of plies that follow it, and the text of those plies: for each the
move, and what the score and the draw score differ from the last ones.

- `src/chess`: pieces, squares, moves, attacks, positions, and their text.
- `src/common`: the stored forms of positions, moves and entries, bits and bytes, chains and files.
- `src/reader`: from bytes to entries.
- `src/writer`: from entries to bytes, and the proof that what is written is read back.
- `app`: the readers and writers over `std::io`.

The laws of the library are the public proof functions whose names begin with `law_`; the central
one is `law_read_back` in `src/writer/read_back.rs`.
