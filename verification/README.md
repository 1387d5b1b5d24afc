# immutable_bank_model

A broker for banks whose history is an append-only, signed ledger.

Each bank keeps a journal of messages. A message carries an entry (the bank
opened, a new state of the bank, or a transaction), the bank's signature of
that entry, and a header that names the bank and links to the key of the
message before it. The broker signs the header, or, for a transaction, the
entry, and keeps the message under that signature. Brokers pass messages to each other over
sockets; a message that arrives is checked against the journal it names, and
is never recorded: a message already kept is a duplicate, any other is out of
sequence. Journals are saved to disk and put back message by message; a saved state
comes back as it was when every journal holds a message, was kept with this
broker's secret, opens its bank with the bank's secret and keeps each message
under its own broker signature, no two alike, as `all_restorable` in
`src/state.rs` states.

Layout:

- `src/` is the verified library. `logic/` holds the ledger operations
  (`add`, `new_bank`, `update_bank`, `copy_bank`, `transfer`), `state.rs` the
  broker's state: messages from other brokers, saving and restoring, `web.rs` the routing
  decisions of the web front. The laws of the library are the `law_*` proof
  functions beside the operations they speak of.
- `tests/` runs the library on concrete values.
- `app/` is the server: command line, logging, HTTP and socket handling, the
  JSON and `bincode` forms of the model's types, and saving to disk.
