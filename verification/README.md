# store

Storage functionality for a beacon node: database columns and keys, a key-value store interface,
an item store on top of it, and an in-memory store. The library under `src/` is verified with
Verus.

- `column`: the columns, their three-letter names and the sizes of their keys.
- `keys`: database keys (column name, then key) and what is read back from them.
- `hash`, `errors`, `ops`: hashes, errors, and storage operations as values.
- `kv`: `KeyValueStore`, with contracts over a map from database keys to values.
- `item`, `item_store`: items, and `ItemStore`.
- `memory_store`, `table`: the in-memory store and the sorted table that it keeps.
- `bytes`: the order of byte strings.
- `laws`: what holds of the library as a whole.

`app/` shares a store between threads.
