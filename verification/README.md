# enbyt

Reading and writing NBT (Named Binary Tag) data, the binary format that Minecraft uses for
worlds and level settings, verified with Verus.

- `src/tag.rs`: the data (`Tag`, `TagPayload`, `TagPayloadType`), their mathematical values
  (`TagModel`, `PayloadModel`) and the checks on them (`Tag::new`, `is_consistent`).
- `src/binary/format.rs`: the binary layout, as spec functions `encode_*` and `decode_*`.
- `src/binary/serialize.rs`: the writers, each proved to append exactly the `encode_*` bytes,
  and to refuse, leaving the output as it was, what the format cannot hold.
- `src/binary/validity.rs`: what the format cannot hold (a string or array too long for its
  length field, a list item of another type, an `End` payload, a repeated name), the error
  for each, and the laws that every successful write reads back.
- `src/binary/deserialize.rs`: the parsers, each proved to read exactly what `decode_*` states.
- `src/binary/roundtrip.rs`: the laws: what reading gives back of what writing wrote, and that
  whatever is read can be written and read back unchanged.
- `src/equality.rs`: `==` on payloads and errors: compounds compare whatever the order of
  their entries, floats by their bits, and a parsing error is equal to no error.
- `src/gzip.rs`: the gzip layer, calls into `flate2` behind trusted wrappers.
- `app/`: `std::io` readers and writers and an error type with `std::error::Error`.

Floating point payloads are held as the bits of their IEEE 754 form, and a compound as a
list of tags with distinct names.
