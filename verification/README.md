# calabi_bcs

Binary Canonical Serialization (BCS) with its encoding rules proved in Verus.

- `src/` is the verified library. `ser` writes each kind of value of the serde
  data model (little-endian integers, ULEB128 lengths and variant indices,
  length-prefixed byte strings, option tags, container depth, maps sorted by
  serialized key with repeated keys refused); `de` reads them back and refuses
  non-canonical input. `roundtrip` proves that reading gives back what was
  written and that only canonical encodings are read; `canonical_map` proves
  that a map's encoding does not depend on the order of its entries.
- `app/` drives serde's `Serializer` and `Deserializer` traits through the
  library (`to_bytes`, `from_bytes` and their variants), writes to
  `std::io::Write` streams, and holds the derive-macro functions.
- `tests/` exercises the library directly.
