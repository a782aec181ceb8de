# zk_login

A login service in which a user proves knowledge of a secret (an embedding
hash and a microchip id) with a Groth16 proof over BLS12-381, and a Solana
program records the public input of each user.

`src/` is the verified library:

- `hex` decodes the hexadecimal embedding hash of a request;
- `bits` reads bytes and bits as little-endian numbers and splits bytes into bits;
- `scalar` holds scalar field elements as canonical 32-byte encodings and packs bits into them;
- `zkpgenerate` lays out the secret and derives the public input of a sign-up
  (SHA-256 digest, bits, multipacking);
- `handlers` turns request fields into that secret and lays out proofs and verifying keys as bytes;
- `sol_connect` builds the Anchor instruction data and the accounts of an instruction;
- `program` is the state of the on-chain account.

`app/` holds the HTTP sign-up handler, the Borsh encodings of instruction
arguments and the transaction plumbing. It reaches a Solana cluster through
the `SolanaRpc` trait, which the embedding program implements with the RPC
client of its choice: no RPC client crate is part of this build.

The proving step of a sign-in (its circuit, proving parameters and verifying
key) is not part of this crate, and neither is a sign-in handler: `app/`
takes a proof and its verifying key once made (`send_sign_in`), lays them out
with the verified serializers and sends them.
