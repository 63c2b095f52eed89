# graphdb

The index layer of a graph store, verified with Verus.

`src/` is the verified library:

- `key_codec`, `key_builder`, `key_parser`: the byte layouts of index keys
  (forward, reverse, native-id and composite keys), how they are built and read
  back, with round-trip laws.
- `compression`: prefix, dictionary and delta compression of keys, and the index
  compressor that chooses among them; each with its round-trip law.
- `mvcc`, `entry_map`, `byte_map`, `index_file`: entry lifetimes and visibility,
  the sorted maps of entries and of byte values, and the file format the maps are
  persisted in.
- `vertex_index`, `vertex_index_laws`: the multi-version vertex index and what it
  promises: a lookup finds what was written, a deletion hides it, collecting
  tombstones changes no lookup, persisted entries load back.
- `edge_index`, `unversioned_vertex_index`: the edge property index and the vertex
  property index without versions, whose reverse entries record each property's
  name and value length; with read-after-write and deletion laws for edges.
- `index_updater`, `changes`, `degree`, `index_types`, `model`, `events`,
  `persistence`, `mmap`: index maintenance with its undo log, change detection
  between vertex versions, the vertex degree index, index statistics, and the
  plain data types around them.

`tests/` runs the library on concrete values. `app/` holds what stays outside the
verified library: serializing property values, file and memory-mapped I/O, and
floating-point compression ratios.
