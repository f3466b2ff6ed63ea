# ebook_kindle

Verified accounting for an on-chain ebook store: publishing books, selling
copies with a license hash, splitting each sale between author and co-author
in basis points, and refunding a purchase inside a refund window.

- `src/royalty.rs`: the basis-point split of a sale and its law.
- `src/license.rs`: the 32-byte license hash and what it separates.
- `src/model.rs`: the abstract state and the outcome of every request.
- `src/table.rs`: the records the store is kept in, and their lookups.
- `src/kindle.rs`: `EbookKindle`, whose methods are proved to produce exactly
  the outcomes of `model.rs`.
- `src/laws.rs`: properties that span requests, stated over sequences of
  requests: publish once, refund at most once, licenses held until refunded,
  a refund undoes a purchase, and the audit law (sales and royalty accounts
  match the license holders while no sales count is full; revenue matches
  them while no revenue would pass its maximum).
- `app/lib.rs`: the Soroban contract that authorizes callers, loads the store
  from instance storage, calls the library and stores the result.

## Storage representation

The contract keeps its state in `soroban_sdk::Map`s in instance storage.
The library keeps the same state in two vectors, `Vec<BookRecord>` and
`Vec<Holding>`, whose keys are unique by invariant and are found by linear
search. A `soroban_sdk::Map` needs an `Env` to exist, and its keys and values
must convert to host values, which for a struct such as `Book` takes the
`#[contracttype]` macro; that macro cannot be used inside the verified
library, and `app/` cannot implement the conversions for a library type. Its
keys are also host objects (`Symbol`, `Address`) with no plain value to
reason about. So the library holds book ids and accounts as bytes, and
`app/` converts between the two forms on every call.

Every license hash is unique per (reader, book, ledger sequence) as those
reach the library: the reader's and the book id's 64-bit host values. For
an `Address` that value is a host object handle, so uniqueness across
readers rests on the host giving distinct readers distinct handles.
