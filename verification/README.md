# libzcash

Unified Address receivers (ZIP 316) and their encoding, verified with Verus.

- `src/typecode.rs`: receiver typecodes, their bytes and transparency.
- `src/order.rs`: preference order of typecodes and receivers.
- `src/receiver.rs`: receivers and their reading from a typecode byte and bytes.
- `src/error.rs`: parse errors and their messages.
- `src/blake2b.rs`: the BLAKE2b hash of `blake2b_simd`.
- `src/f4jumble.rs`: the F4Jumble permutation and its inverse.
- `src/address.rs`: Unified Addresses, their raw and jumbled encodings, parsing
  and validation, with the round-trip laws.
- `src/transaction.rs`: amounts and output positions of a transparent transaction.
- `src/hexadecimal.rs`, `src/keys.rs`, `src/builder.rs`: the calls into `hex`,
  `secp256k1` and the `zcash_primitives` transaction builder.
- `src/spend.rs`: decoding a spend's inputs and assembling its transaction.
- `app/`: the C interface: raw pointers, address decoding through
  `zcash_client_backend`, the proving parameters and the C response.
