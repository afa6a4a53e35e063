# bootnode

A bootnode caches the contract events of a Stellar deployment. It serves a
client's history with `getEvents` up to a retention cutoff, which lies a
configured number of days before the tip of the network, and then hands the
client off to its own endpoint.

## Layout

- `src/` is the library, written in Verus and proved. It decides and computes,
  and leaves the network, the database and the user to its callers.
  - `rpc`: how a request is answered: refusal, warm-up, handoff or a page.
  - `indexer`: a round of indexing as a state machine, and the rest between rounds.
  - `storage::log`: the event log as a mathematical value, with its laws.
  - `storage::in_memory`: a storage in memory.
  - `storage::postgres`: the parameters of the database queries, and what is made of the rows.
  - `config`, `cli`, `deployment`, `node`: what a node starts from.
  - `messages`, `text`: events, and order and blankness of text.
- `app/` is the program: arguments, database, upstream client, server.
- `tests/` runs the library on concrete values.

## Trust

The proofs rest on the contracts of a few functions that call outside crates:
`parse_connection_string` in `storage::postgres` (`tokio_postgres`), and those
that build JSON values and error objects in `rpc` (`serde_json`, `jsonrpsee`);
and on the clones of `Url` and `PathBuf` being equal to what they clone.
