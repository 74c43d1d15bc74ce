# xor

XOR encryption of data, files and file names against a repeating key, as a
verified library (`src/`) with a command-line front end (`app/`).

- `src/key.rs`: repeating the key, XOR-ing data against it; XOR-ing twice
  with the same key restores the data.
- `src/hexcode.rs`: upper-case hexadecimal encoding, decoding through the
  `hex` crate; decoding the encoding restores the bytes.
- `src/names.rs`: the new name of an entry when encrypting (XOR, then hex)
  or decrypting (unhex, then XOR); decrypting an encrypted name restores it.
- `src/stream.rs`: what is written for each read of a stream; the key runs
  on across the reads, so the output does not depend on how the input was
  split into reads.
- `src/walk.rs`: the order of the passes over a directory's children.
- `src/prompt.rs`: the yes/no question before a too-small key is used.
- `app/main.rs`: argument parsing, reading and writing, the file system,
  logging, and the size warning.
