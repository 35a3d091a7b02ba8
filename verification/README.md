# miden-client

A light client for the Miden network, written in Verus. The client follows the chain, a set of
accounts and their notes, and sends private notes over the note transport service.

The rules by which it does so are verified:

- `src/sync` follows the chain: it checks what a node says of the chain tip, orders the transactions
  of a block, decides what becomes of pending transactions, adopts the states of accounts, and keeps
  the part of the chain's mountain range that the client needs.
- `src/rpc` reads the answers of a node, goes through their pages, decides about retries, and checks
  that an answer is about what was asked.
- `src/note` imports notes and finds stored ones.
- `src/note_transport` keeps private notes until they are delivered, and receives them.
- `src/account`, `src/protocol_config` and `src/transaction` decide about accounts, protocol
  configurations and the states of transactions.
- `src/test_utils` holds a chain and a node for tests, and what test helpers decide.
- `src/mmr`, `src/collections`, `src/bytes`, `src/text` and `src/types` are what the others stand on.

Every function states in its contract what it returns or changes. What holds of several functions
together is stated in proof functions whose names start with `law_`.

The calls into the protocol crates are declared next to the code that needs them. Each of these
declarations says what is relied on; hashes and serialized forms are only named.

`app` holds the parts that do I/O: requests, the store, and loops that wait. `tests` runs the library
against the protocol crates.
