# prestate_rw

Works out, for each transaction of an Ethereum block, which pieces of state it
reads and which it writes, from the two pre-state traces that a node's debug
API gives (`prestateTracer` without and with `diffMode`), and builds the
documents that the block downloader saves.

- `src/` is the library, verified with Verus:
  - `json` — a plain JSON value and its model;
  - `rwsets` — read and write sets per transaction;
  - `keys` — access keys hashed with Keccak-256, sorted and de-duplicated;
  - `keylaws` — a leading `0x` and the case of hex digits do not change the keys;
  - `gas` — gas used per transaction, from the receipts;
  - `document` — the saved documents and their file names;
  - `rpc` — the debug-API calls and the order in which they are tried;
  - `text`, `hexcodec` — numbers as text, hexadecimal text;
  - `stats` — the tally of saved and failed blocks.
- `app/` is the program: it talks to the node, converts between `serde_json`
  and the library's values, and writes the files. `app rw` runs the
  read-write download.

The write set and the gas lookup are vectors searched in order, not a hash
set and a hash map: vstd specifies neither collection for `String` keys in a
way that the contracts could use, and a vector states the same lookups
directly (a key is in the write set; the gas of the last receipt with a given
hash, as a map filled in order would keep it).
