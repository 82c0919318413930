# ippan

The verified core of an IPPAN node: the logic of its networking, caching,
performance, privacy, quantum-resistance and security components, written
in Verus with `requires`/`ensures` contracts that the verifier proves.

- `src/` is the library. Each module states its data as spec views and its
  operations as contracts over them; laws that span several operations are
  public proof functions (`lemma_*`). Calls into outside crates (flate2,
  aes-gcm, sha2, ed25519-dalek, chrono, regex, rand, uuid, hex) go through
  small trusted wrappers whose doc comments say what is assumed of them.
- `tests/` runs the library on concrete values.
- `app/` holds what the verifier does not take: clocks, sockets, HTTP,
  threads, serde and bincode front ends, and the loops that drive the
  library.

Times are integers (milliseconds or seconds since the Unix epoch) handed in
by the caller; rates and scores that were fractions are fixed-point
integers (hundredths or millionths).
