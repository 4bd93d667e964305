# pow_chain

A small proof-of-work cryptocurrency, verified with Verus.

- `src/` is the library: encodings (decimal, hexadecimal, UTF-8 bytes),
  the cryptographic primitives it calls (SHA-256, Ed25519, the OS random
  generator, the clock), wallets, transactions, blocks, balances and the
  chain. Every function there carries a contract. Verus proves them all
  except those of the small wrappers that call the outside crates (`sha2`,
  `ed25519-dalek`, `rand`, `chrono`, `hex`) and `String::from_utf8`: their
  contracts are trusted, and each one's doc comment says what it claims.
- `app/` is the interactive program: the menu, the JSON files for the
  chain and the wallet, and the text shown to the user.
- `tests/` exercises the library on concrete values.
