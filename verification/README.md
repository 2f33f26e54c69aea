# nodedb

An embedded document database with peer-to-peer federation, written in Verus.

- `src/` is the verified library: schemas and qualified names, documents and
  their values, filters and queries, triggers and their pipeline, trim
  policies, record caches, access history, preferences, sealing of stored
  values, provenance records, id encoding, and the decisions of the transport
  (handshake, gossip, mesh routing, federated queries, discovery, framing).
  Each public function states its result in `ensures`; the laws that relate
  several functions are public proof functions.
- `app/` is the I/O around it: sled-backed storage, MessagePack codecs, the
  database and its collections, the provenance engine, and the networked
  transport (TLS, WebSockets, tokio tasks, mDNS). It calls the library for
  its decisions; the map form of trim policies and reports, which carries
  floating-point thresholds and scores, is read and written there.
- `tests/` exercises the library on concrete values.
