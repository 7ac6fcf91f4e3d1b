# reflect-mem

A long-term memory server. Text is split into chunks, a language model finds the
entities and relationships in each, and the result is kept in a property graph,
in vector tables and in relational metadata. Questions are answered from what is
kept; what is forgotten leaves all stores, while entities that other memories
still own stay.

## Layout

- `src/` is the library, written in Verus: every function is proved against its
  contract.
  - `ingest/` goes from a text to the records that hold it: chunks, identifiers,
    data points, edges and rows.
  - `storage/` holds the graph, the relational metadata, provenance lists and
    what is written to and read from vector tables.
  - `remember`, `recall`, `forget`, `doctor` and `migrate` are the operations,
    in steps between which the program talks to services and databases.
  - `provenance` and `ingest/points` state what remembering and forgetting do to
    each other, `timeline` that the spellings of times sort as the times do.
  - `settings`, `config`, `llm`, `embed` and `mcp` are what surrounds them:
    configuration, requests and replies, and the parameters of the server's
    tools.
  - `json`, `text`, `pattern`, `number`, `calendar`, `clock`, `uid` and `lists`
    are the vocabulary that the others are written in.
- `tests/` runs the library on concrete values.
- `app/` is the program: command line, SQLite, LanceDB, HTTP and MCP.

## Trust

The library calls `serde_json`, `uuid`, `md-5` and the system clock through small
wrappers. What is claimed of each call stands in the wrapper's contract, and a
comment above it says in words what was not proved.
