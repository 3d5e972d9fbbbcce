# nexus_chain

A verified library for a DAG-based blockchain node with ISO 8583 / ISO 20022
payment messaging, written in Verus. Nearly every public function in `src/`
carries a `requires`/`ensures` contract that Verus proves; calls into outside crates
(hashing, secp256k1 signatures, BN254 arithmetic, big-number modular
exponentiation, clocks and randomness) sit behind small trusted wrappers
whose contracts state what those crates document.

## Layout

- `src/primitives/` — hashes, 256-bit integers, addresses (EIP-55, CREATE and
  CREATE2 placement), transactions and their RLP encoding, signatures.
- `src/dag/` — vertices, the DAG with tips, ancestry and weights, finality,
  tip selection.
- `src/consensus/` — validator sets, proof of stake with delegation and
  slashing, the BFT engine (prepare/commit votes, view changes, finality
  certificates), the proposer (transaction pool, when to propose, vertex
  proposals), the ISO audit log.
- `src/evm/` — gas schedule and metering with refunds, the fee market,
  precompiled contracts, receipts and bloom filters, account state with a
  journal, and the transaction executor: checks in order (gas limit, chain,
  signer, intrinsic gas, fee cap, balance, nonce), up-front fee, calls,
  contract creation at the CREATE address, rollback of reverted runs, gas
  refund and coinbase fee. Contract code runs under a stand-in interpreter
  that charges three gas a byte of code.
- `src/state/` — the Merkle Patricia trie (proofs, read after write),
  checkpoints with revert, the persistent state database.
- `src/iso/` — ISO 8583 messages (parse after serialize gives the message
  back), ISO 20022 credit transfers, IBAN/BIC/LEI
  validation, currencies, routing and compliance checks.
- `src/network/`, `src/rpc/`, `src/node/` — gossip, peers, sync, the
  mempool and RPC types, node configuration and genesis.
- `app/` — the command-line program (genesis creation, checks, audit) and
  the parts that use floating point.
- `tests/` — executable tests of the library.
