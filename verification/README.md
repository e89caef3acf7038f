# see — a simple execution environment

A block carries a count of transfers, the transfers (144 bytes each: receiver,
sender, nonce, amount, signature), and a Merkle proof of the accounts they
touch. `ee::entry` loads the proof into a store of chunks keyed by general
index, applies each transfer (credit the receiver, debit the sender, bump the
sender's nonce) and returns the new state root.

Layout of `src/`:

- `address`, `transaction`, `crypto`, `blob`: the wire formats.
- `tree_index`: general-index arithmetic (through `bonsai`).
- `store`: the proof store (`oof::Oof`) and what its operations do.
- `account`, `reflist`: accounts as subtrees of chunks, and the list that reads
  and writes them, with a saved copy for rolling back.
- `ee`: processing a block.
- `tree`, `list`, `generate`: building account trees and state proofs
  (through `arborist`), and encoding transfers.

`app/main.rs` runs one transfer natively and compares the post-state root with
the root of the expected state.
