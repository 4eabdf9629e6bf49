# procmetrics

Verified readers for the metrics that Linux publishes under `/proc` and `/sys`: the commit
charge of the system, the overcommit policy, the power state of devices, and what
`/proc/<PID>` says of a process.

- `src/` turns the contents of the files into typed values. Every function has a contract that
  Verus proves; `src/outside.rs` holds the functions of `std` and `rustix` that are relied on
  without proof.
- `app/` opens and reads the files.
- `tests/` runs the library on sample files.

The contracts speak of the characters and lines of a file. `process::loader` decides what is
to be read next of a process and makes a `Process` of the replies, so that the reading itself
can stay outside of the verified code.
