# chronicle

The core of a permanode for the IOTA Stardust ledger, written in Verus: the
parts that decide and compute are proved against their contracts, and the
parts that talk to the database, to the node and to the time-series store are
ordinary Rust around them.

## Layout

- `src/` — the verified library.
  - `types` — milestone indices and times, addresses, output and payload kinds.
  - `bson` — the lossless two-part encoding of `u64` values.
  - `chunks` — splitting a sequence into chunks that can be read in any order.
  - `stream` — assembling the ledger updates of a milestone from single updates.
  - `sync` — completed ranges and gaps of synchronized milestones.
  - `gaps` — the map of gaps, and completing a milestone inside one.
  - `analytics` — per-milestone analytics of outputs, addresses and blocks.
  - `ledger` — the stored outputs as the ledger analytics count them, and why
    one ledger's analytics follow from the previous ledger's.
  - `milestone` — the writes that store a milestone's ledger updates, with the
    milestone itself last.
  - `measurement` — analytics results and the time-series points they become.
  - `indexer` — the clauses of the indexer queries for each output kind.
  - `document` — the query documents those clauses are sent as: keys, nesting
    and the encodings of addresses, times, tags and token amounts.
  - `doc_path` — dotted paths into nested documents, and following them
    through the shape of a stored document.
  - `collections` — stored names of output and payload kinds, sort orders.
  - `config` — database connection settings.
  - `inx` — checks made when connecting to a node and starting to sync, and
    what is done with the node's protocol parameters.
  - `cone` — treasury transactions among the blocks of a milestone's cone.
- `tests/` — tests of the library on concrete values.
- `app/` — the program: configuration files, database queries and documents,
  time-series writes, and the loop that feeds the ledger update assembler.
