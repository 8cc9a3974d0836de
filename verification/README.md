# sled_contents

The contents of a messenger's store, kept in a [sled](https://sled.rs) database: contacts, groups,
messages, profiles, sticker packs and the metadata of conversations.

`src/` is a library verified with Verus. It does no I/O. It decides on trees, keys, ranges and clearing, on
how stored values are read, and on what an operation answers:

- `trees`: the names of the trees, and the name of the tree that holds a conversation's messages
- `keys`: keys of messages, and ranges of keys
- `store`: what each operation asks of the database, and what it makes of the answer
- `clear`: clearing, as a state machine that asks for one thing after the other
- `iter`: walks over a tree, and the stages in which the values met there are read
- `encoding`: hexadecimal, UUID and base64 text
- `laws`: what holds of the store as a whole, over a database of named trees
- `walks`: what holds of walks: their order, their bounds, and how they read
- `outside`: the functions of other crates that are called, with what is claimed of them
- `error`: the errors of the store

`app/` is the store itself: it holds the database, the cipher and the parsers, does what the
library asks, and hands back what came of it. `tests/` runs the library on values and on a real,
temporary database.
