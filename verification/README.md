# GridRock

A sharded key-value store. A shard controller keeps the servers on a
consistent-hash ring; storage nodes replicate writes through raft and apply
them to a local key-value engine.

`src/` is the verified library:

- `config_store`: the ring (servers sorted by the xxh3 hash of their address),
  its lookup, insertion, re-sorting and removal, and the laws of consistent
  hashing; the process-wide store of the ring.
- `config_controller`: the shard controller's handlers.
- `node_utils`, `server`, `node_comm_server`: the decisions of a storage node's
  raft processor and of its client and peer services.
- `db_utils`: the guarded create/read/update/delete operations of the storage
  engine and their laws over a map model of the engine.
- `proposal_id`, `node_config`, `raft_node`, `node_comm_client`, `client`,
  `errors`, `text`, `file_store_utils`: identifiers, settings parsing, endpoints,
  error texts and text helpers.

`app/` holds what Verus does not see: the environment, process-wide globals,
the storage engine on disk, the raft loop and the wire encoding.
