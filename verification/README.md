# chimera

Publishing static sites over a peer-to-peer network, with the content logic
verified in Verus.

A folder is split into 256 KB chunks, each named by a CIDv1 of its SHA-256
multihash; files link to their chunks in order, directories link to their
children sorted by name, and every DAG node is named by the CID of the JSON of
its content. A retriever resolves a site to its root CID, walks the DAG by path
segments and concatenates the chunks of the file it reaches.

- `src/` — the library, verified: chunking (`content::chunker`), CIDs
  (`content::cid`), the Merkle DAG of a folder (`content::merkle`, ordering in
  `content::order`, independence from listing order in `content::listing`,
  reading a published file back in `content::walk`), the JSON that names nodes and records (`json`), the
  publishing checks and plan (`publisher`), the retrieval steps (`retriever`),
  the records and chunk layout (`storage`), the protocol messages and the
  node's decisions (`network`), the node settings (`node`) and what the
  frontend is sent (`ipc`). Laws are the public proof functions named `lemma_*`.
- `app/` — the file system, SQLite, the libp2p node and its event loop, and the
  commands, around the library.
- `tests/` — tests of the library.
